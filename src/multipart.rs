use std::collections::hash_map::DefaultHasher;
use std::hash::Hasher;
use vstd::prelude::*;
use vstd::std_specs::hash::DefaultHasherAdditionalSpecFns;
use vstd::string::*;
use vstd::utf8::{decode_utf8, encode_utf8, valid_utf8};

use crate::streaming::{chunks_of, Streaming};

verus! {

/// Length of a boundary token.
pub const BOUNDARY_LEN: usize = 32;

/// Default number of source bytes framed into one part.
pub const DEFAULT_BUF_LEN: usize = 65536;

/// The seed from which a fresh `Streamer` derives its boundary.
pub open spec fn default_seed() -> Seq<u8> {
    "1234567890abcdefghijklmnopqrstuvw".spec_bytes()
}

/// Maps `0..36` onto `0-9` followed by `a-z`.
pub open spec fn alnum(d: nat) -> u8 {
    if d < 10 {
        (48 + d) as u8
    } else {
        (87 + d) as u8
    }
}

/// The writes a hasher has seen after `k` rounds, each round writing every
/// one of `parts` in order.
pub open spec fn rounds(parts: Seq<Seq<u8>>, k: nat) -> Seq<Seq<u8>>
    decreases k,
{
    if k == 0 {
        Seq::empty()
    } else {
        rounds(parts, (k - 1) as nat) + parts
    }
}

/// The token derived from `parts`: character `i` comes from the running
/// hash after `i + 1` rounds of writes, reduced modulo 36.
pub open spec fn boundary_token(parts: Seq<Seq<u8>>) -> Seq<u8> {
    Seq::new(
        BOUNDARY_LEN as nat,
        |i: int| alnum((DefaultHasher::spec_finish(rounds(parts, (i + 1) as nat)) % 36) as nat),
    )
}

/// `k` bytes of `v`, least significant first.
pub open spec fn le_bytes(v: nat, k: nat) -> Seq<u8>
    decreases k,
{
    if k == 0 {
        Seq::empty()
    } else {
        seq![(v % 256) as u8] + le_bytes(v / 256, (k - 1) as nat)
    }
}

/// UTF-8 bytes of an optional text, empty when absent.
pub open spec fn opt_bytes(s: Option<String>) -> Seq<u8> {
    match s {
        Some(t) => encode_utf8(t@),
        None => Seq::empty(),
    }
}

/// The writes of one round of a boundary derived from part settings.
pub open spec fn meta_seed(buf_len: usize, filename: Option<String>, name: Option<String>) -> Seq<
    Seq<u8>,
> {
    seq![le_bytes(buf_len as nat, 8), opt_bytes(filename), opt_bytes(name)]
}

/// Decimal digits of `n`, most significant first.
pub open spec fn decimal(n: nat) -> Seq<u8>
    decreases n,
{
    if n < 10 {
        seq![(48 + n) as u8]
    } else {
        decimal(n / 10).push((48 + n % 10) as u8)
    }
}

/// What the text of `b` reads when invalid UTF-8 is replaced.
pub uninterp spec fn utf8_lossy(b: Seq<u8>) -> Seq<char>;

/// A multipart delimiter token.
pub struct Boundary(pub [u8; 32]);

/// Relies on `String::from_utf8_lossy`: valid UTF-8 is decoded as it is.
#[verifier::external_body]
fn lossy_text(b: &[u8]) -> (r: String)
    ensures
        r@ == utf8_lossy(b@),
        valid_utf8(b@) ==> r@ == decode_utf8(b@),
{
    String::from_utf8_lossy(b).into_owned()
}

fn push_bytes(out: &mut Vec<u8>, s: &[u8])
    ensures
        final(out)@ == old(out)@ + s@,
{
    let mut i: usize = 0;
    while i < s.len()
        invariant
            i <= s@.len(),
            out@ == old(out)@ + s@.take(i as int),
        decreases s@.len() - i,
    {
        out.push(s[i]);
        i = i + 1;
        assert(out@ =~= old(out)@ + s@.take(i as int));
    }
    assert(s@.take(i as int) =~= s@);
}

fn push_str(out: &mut Vec<u8>, s: &str)
    ensures
        final(out)@ == old(out)@ + s.spec_bytes(),
{
    push_bytes(out, s.as_bytes());
}

fn push_decimal(out: &mut Vec<u8>, n: usize)
    ensures
        final(out)@ == old(out)@ + decimal(n as nat),
    decreases n,
{
    if n < 10 {
        out.push(48 + n as u8);
    } else {
        push_decimal(out, n / 10);
        out.push(48 + (n % 10) as u8);
    }
    assert(out@ =~= old(out)@ + decimal(n as nat));
}

fn le_bytes_of(v: usize) -> (r: Vec<u8>)
    ensures
        r@ == le_bytes(v as nat, 8),
{
    let mut r: Vec<u8> = Vec::new();
    let mut rest: u64 = v as u64;
    let mut k: usize = 0;
    while k < 8
        invariant
            k <= 8,
            r@ + le_bytes(rest as nat, (8 - k) as nat) == le_bytes(v as nat, 8),
        decreases 8 - k,
    {
        let ghost before = r@;
        r.push((rest % 256) as u8);
        assert(le_bytes(rest as nat, (8 - k) as nat) == seq![(rest % 256) as u8] + le_bytes(
            (rest / 256) as nat,
            (8 - k - 1) as nat,
        ));
        assert(r@ + le_bytes((rest / 256) as nat, (8 - k - 1) as nat) =~= before + le_bytes(
            rest as nat,
            (8 - k) as nat,
        ));
        rest = rest / 256;
        k = k + 1;
    }
    assert(r@ =~= r@ + le_bytes(rest as nat, 0));
    r
}

fn digit(d: u64) -> (r: u8)
    requires
        d < 36,
    ensures
        r == alnum(d as nat),
{
    if d < 10 {
        d as u8 + 48
    } else {
        d as u8 - 10 + 97
    }
}

/// Derives a token from `parts`: 32 rounds of writing every part into one
/// hasher, taking one character from the running hash after each round.
fn token_of_parts(parts: &Vec<Vec<u8>>) -> (r: Boundary)
    ensures
        r.0@ == boundary_token(parts@.map_values(|v: Vec<u8>| v@)),
{
    let ghost ps = parts@.map_values(|v: Vec<u8>| v@);
    let mut inner: [u8; 32] = [0u8; 32];
    let mut hasher = DefaultHasher::new();
    let mut i: usize = 0;
    while i < BOUNDARY_LEN
        invariant
            i <= BOUNDARY_LEN,
            ps == parts@.map_values(|v: Vec<u8>| v@),
            hasher@ == rounds(ps, i as nat),
            forall|j: int| 0 <= j < i ==> inner@[j] == #[trigger] boundary_token(ps)[j],
        decreases BOUNDARY_LEN - i,
    {
        let mut p: usize = 0;
        while p < parts.len()
            invariant
                p <= parts@.len(),
                ps == parts@.map_values(|v: Vec<u8>| v@),
                hasher@ == rounds(ps, i as nat) + ps.take(p as int),
            decreases parts@.len() - p,
        {
            hasher.write(parts[p].as_slice());
            assert(hasher@ =~= rounds(ps, i as nat) + ps.take(
                (p + 1) as int,
            ));
            p = p + 1;
        }
        assert(ps.take(p as int) =~= ps);
        assert(hasher@ == rounds(ps, (i + 1) as nat));
        let h = hasher.finish();
        let c = digit(h % 36);
        inner[i] = c;
        i = i + 1;
    }
    assert(inner@ =~= boundary_token(ps));
    Boundary(inner)
}

/// Derives a boundary from raw seed bytes; equal seeds give equal tokens.
pub fn gen_boundary(del: &[u8]) -> (r: Boundary)
    ensures
        r.0@ == boundary_token(seq![del@]),
{
    let mut parts: Vec<Vec<u8>> = Vec::new();
    parts.push(vstd::slice::slice_to_vec(del));
    assert(parts@.map_values(|v: Vec<u8>| v@) =~= seq![del@]);
    token_of_parts(&parts)
}

impl Boundary {
    /// The token as text.
    pub fn to_str(&self) -> (r: String)
        ensures
            r@ == utf8_lossy(self.0@),
            valid_utf8(self.0@) ==> r@ == decode_utf8(self.0@),
    {
        lossy_text(self.0.as_slice())
    }

    /// Derives a boundary from a part's chunk size, file name and field name.
    pub fn for_meta(meta: &Meta) -> (r: Boundary)
        ensures
            r.0@ == boundary_token(meta_seed(meta.buf_len, meta.filename, meta.name)),
    {
        let mut parts: Vec<Vec<u8>> = Vec::new();
        parts.push(le_bytes_of(meta.buf_len));
        parts.push(opt_text_bytes(&meta.filename));
        parts.push(opt_text_bytes(&meta.name));
        assert(parts@.map_values(|v: Vec<u8>| v@) =~= meta_seed(meta.buf_len, meta.filename, meta.name));
        token_of_parts(&parts)
    }
}

fn opt_text_bytes(s: &Option<String>) -> (r: Vec<u8>)
    ensures
        r@ == opt_bytes(*s),
{
    match s {
        Some(t) => vstd::slice::slice_to_vec(t.as_str().as_bytes()),
        None => Vec::new(),
    }
}


/// Settings and framing of the parts of one multipart body.
pub struct Meta {
    pub name: Option<String>,
    pub filename: Option<String>,
    pub boundary: Boundary,
    pub buf_len: usize,
}

/// The clause that carries the field name (under the `filename` key).
pub open spec fn name_clause(name: Option<String>) -> Seq<u8> {
    match name {
        Some(n) => " filename=\"".spec_bytes() + encode_utf8(n@) + "\";".spec_bytes(),
        None => Seq::empty(),
    }
}

/// The clause that carries the file name and the part number (under the
/// `name` key).
pub open spec fn filename_clause(filename: Option<String>, ind: nat) -> Seq<u8> {
    match filename {
        Some(f) => " name=\"".spec_bytes() + encode_utf8(f@) + ".".spec_bytes() + decimal(ind)
            + "\";".spec_bytes(),
        None => Seq::empty(),
    }
}

/// The bytes that open part number `ind`.
pub open spec fn head_bytes(meta: Meta, ind: nat) -> Seq<u8> {
    "--".spec_bytes() + meta.boundary.0@ + "\r\nContent-Disposition: form-data;".spec_bytes()
        + name_clause(meta.name) + filename_clause(meta.filename, ind) + "\r\n\r\n".spec_bytes()
}

/// The bytes that close a part whose body holds `body_len` bytes: a short
/// body is taken as the last one and also closes the whole body.
pub open spec fn tail_bytes(meta: Meta, body_len: nat) -> Seq<u8> {
    if body_len < meta.buf_len {
        "\r\n--".spec_bytes() + meta.boundary.0@ + "--\r\n".spec_bytes()
    } else {
        "\r\n".spec_bytes()
    }
}

impl Meta {
    /// Sets the file name that numbers each part.
    pub fn set_filename(&mut self, filename: &str)
        ensures
            final(self).filename matches Some(f) && f@ == filename@,
            final(self).name == old(self).name,
            final(self).boundary == old(self).boundary,
            final(self).buf_len == old(self).buf_len,
    {
        self.filename = Some(filename.to_owned());
    }

    /// Sets the form field name.
    pub fn set_name(&mut self, name: &str)
        ensures
            final(self).name matches Some(n) && n@ == name@,
            final(self).filename == old(self).filename,
            final(self).boundary == old(self).boundary,
            final(self).buf_len == old(self).buf_len,
    {
        self.name = Some(name.to_owned());
    }

    /// Sets the number of source bytes framed into one part.
    pub fn set_buf_len(&mut self, buf_len: usize)
        ensures
            final(self).buf_len == buf_len,
            final(self).name == old(self).name,
            final(self).filename == old(self).filename,
            final(self).boundary == old(self).boundary,
    {
        self.buf_len = buf_len;
    }

    fn ser_name(&self, out: &mut Vec<u8>)
        ensures
            final(out)@ == old(out)@ + name_clause(self.name),
    {
        match &self.name {
            Some(n) => {
                push_str(out, " filename=\"");
                push_str(out, n.as_str());
                push_str(out, "\";");
            },
            None => {},
        }
        assert(out@ =~= old(out)@ + name_clause(self.name));
    }

    fn ser_filename(&self, out: &mut Vec<u8>, ind: usize)
        ensures
            final(out)@ == old(out)@ + filename_clause(self.filename, ind as nat),
    {
        match &self.filename {
            Some(f) => {
                push_str(out, " name=\"");
                push_str(out, f.as_str());
                push_str(out, ".");
                push_decimal(out, ind);
                push_str(out, "\";");
            },
            None => {},
        }
        assert(out@ =~= old(out)@ + filename_clause(self.filename, ind as nat));
    }

    /// The bytes that open part number `ind`.
    pub fn write_head(&self, ind: usize) -> (r: Vec<u8>)
        ensures
            r@ == head_bytes(*self, ind as nat),
    {
        let mut out: Vec<u8> = Vec::new();
        push_str(&mut out, "--");
        push_bytes(&mut out, self.boundary.0.as_slice());
        push_str(&mut out, "\r\nContent-Disposition: form-data;");
        self.ser_name(&mut out);
        self.ser_filename(&mut out, ind);
        push_str(&mut out, "\r\n\r\n");
        assert(out@ =~= head_bytes(*self, ind as nat));
        out
    }

    /// The bytes that close a part whose body holds `body_len` bytes.
    pub fn write_tail(&self, body_len: usize) -> (r: Vec<u8>)
        ensures
            r@ == tail_bytes(*self, body_len as nat),
    {
        let mut out: Vec<u8> = Vec::new();
        if body_len < self.buf_len {
            push_str(&mut out, "\r\n--");
            push_bytes(&mut out, self.boundary.0.as_slice());
            push_str(&mut out, "--\r\n");
        } else {
            push_str(&mut out, "\r\n");
        }
        assert(out@ =~= tail_bytes(*self, body_len as nat));
        out
    }
}


/// One framed part: the opening bytes, a slice of the source, the closing
/// bytes, to be sent in that order.
pub struct Frame {
    pub head: Vec<u8>,
    pub body: Vec<u8>,
    pub tail: Vec<u8>,
}

/// Frames a byte source as consecutive multipart parts of at most
/// `meta.buf_len` bytes each.
pub struct Streamer {
    pub src: Streaming<u8>,
    pub meta: Meta,
    /// Number of the next part.
    pub ind: usize,
}

impl Streamer {
    /// The source bytes not framed yet.
    pub open spec fn remaining(&self) -> Seq<u8> {
        self.src.remaining()
    }

    /// A streamer over `src` with the default chunk size, no names, and the
    /// boundary derived from the default seed.
    pub fn new(src: Streaming<u8>) -> (r: Self)
        ensures
            r.remaining() == src.remaining(),
            r.ind == 0,
            r.meta.name is None,
            r.meta.filename is None,
            r.meta.buf_len == DEFAULT_BUF_LEN,
            r.meta.boundary.0@ == boundary_token(seq![default_seed()]),
    {
        let boundary = gen_boundary("1234567890abcdefghijklmnopqrstuvw".as_bytes());
        Streamer {
            src,
            meta: Meta { name: None, filename: None, boundary, buf_len: DEFAULT_BUF_LEN },
            ind: 0,
        }
    }

    /// Frames the next chunk of the source; `None` once it is exhausted.
    pub fn next_part(&mut self) -> (r: Option<Frame>)
        requires
            old(self).meta.buf_len > 0,
            old(self).ind < usize::MAX,
        ensures
            final(self).meta == old(self).meta,
            old(self).remaining().len() == 0 <==> r is None,
            r is None ==> final(self).remaining() == old(self).remaining() && final(self).ind
                == old(self).ind,
            r matches Some(f) ==> {
                &&& f.body@ == chunks_of(old(self).remaining(), old(self).meta.buf_len as nat)[0]
                &&& f.head@ == head_bytes(old(self).meta, old(self).ind as nat)
                &&& f.tail@ == tail_bytes(old(self).meta, f.body@.len())
                &&& final(self).remaining() == old(self).remaining().skip(f.body@.len() as int)
                &&& final(self).ind == old(self).ind + 1
                &&& chunks_of(old(self).remaining(), old(self).meta.buf_len as nat) == seq![f.body@]
                    + chunks_of(final(self).remaining(), old(self).meta.buf_len as nat)
            },
    {
        match self.src.next_chunk(self.meta.buf_len) {
            None => None,
            Some(body) => {
                let head = self.meta.write_head(self.ind);
                let tail = self.meta.write_tail(body.len());
                self.ind = self.ind + 1;
                Some(Frame { head, body, tail })
            },
        }
    }
}

/// Boundary derivation is a function of its seed: equal seeds give equal
/// tokens, and every token has 32 characters from `0-9a-z`.
pub proof fn lemma_boundary_deterministic(a: Seq<Seq<u8>>, b: Seq<Seq<u8>>)
    requires
        a == b,
    ensures
        boundary_token(a) == boundary_token(b),
        boundary_token(a).len() == 32,
        forall|i: int|
            0 <= i < 32 ==> {
                let c = #[trigger] boundary_token(a)[i];
                (48 <= c <= 57) || (97 <= c <= 122)
            },
{
}


impl<'a> From<&'a Meta> for Boundary {
    fn from(meta: &'a Meta) -> (r: Self) {
        Boundary::for_meta(meta)
    }
}

impl<'a> vstd::std_specs::convert::FromSpecImpl<&'a Meta> for Boundary {
    open spec fn obeys_from_spec() -> bool {
        false
    }

    open spec fn from_spec(meta: &'a Meta) -> Self {
        arbitrary()
    }
}

} // verus!
