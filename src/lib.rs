//! Lazy, single-consumer sequences over in-memory sources, batched into
//! bounded chunks and framed as `multipart/form-data` parts.

pub mod multipart;
pub mod streaming;

pub use multipart::{gen_boundary, Boundary, Frame, Meta, Streamer};
pub use streaming::{read_outcome, Streaming};
