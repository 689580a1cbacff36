use streamer::{gen_boundary, Boundary, Frame, Meta, Streamer, Streaming};

fn text(b: &[u8]) -> String {
    String::from_utf8(b.to_vec()).unwrap()
}

fn drain(mut s: Streamer) -> Vec<Frame> {
    let mut out = Vec::new();
    while let Some(f) = s.next_part() {
        out.push(f);
    }
    out
}

fn is_token(b: &Boundary) -> bool {
    b.0.iter().all(|c| c.is_ascii_digit() || c.is_ascii_lowercase())
}

fn meta_with(buf_len: usize, name: Option<&str>, filename: Option<&str>) -> Meta {
    let mut m = Meta {
        name: None,
        filename: None,
        boundary: gen_boundary(b"seed"),
        buf_len,
    };
    if let Some(n) = name {
        m.set_name(n);
    }
    if let Some(f) = filename {
        m.set_filename(f);
    }
    m
}

#[test]
fn boundary_is_deterministic_token() {
    let a = gen_boundary(b"1234567890abcdefghijklmnopqrstuvw");
    let b = gen_boundary(b"1234567890abcdefghijklmnopqrstuvw");
    assert_eq!(a.0, b.0);
    assert!(is_token(&a));
    assert_eq!(a.to_str().len(), 32);
    assert_eq!(a.to_str(), text(&a.0));
    let c = gen_boundary(b"another seed");
    assert!(is_token(&c));
    assert_ne!(a.0, c.0);
    assert!(is_token(&gen_boundary(b"")));
}

#[test]
fn boundary_from_settings() {
    let m1 = meta_with(10, Some("doc"), Some("info"));
    let m2 = meta_with(10, Some("doc"), Some("info"));
    let b1 = Boundary::from(&m1);
    assert_eq!(b1.0, Boundary::from(&m2).0);
    assert!(is_token(&b1));
    assert_ne!(b1.0, Boundary::from(&meta_with(11, Some("doc"), Some("info"))).0);
    assert_ne!(b1.0, Boundary::from(&meta_with(10, Some("dog"), Some("info"))).0);
    assert_ne!(b1.0, Boundary::from(&meta_with(10, Some("doc"), Some("infos"))).0);
    assert_eq!(
        Boundary::for_meta(&m1).0,
        Boundary::from(&m1).0
    );
}

#[test]
fn new_streamer_defaults() {
    let s = Streamer::new(Streaming::from("abc"));
    assert_eq!(s.meta.buf_len, 65536);
    assert!(s.meta.name.is_none());
    assert!(s.meta.filename.is_none());
    assert_eq!(s.ind, 0);
    assert_eq!(
        s.meta.boundary.0,
        gen_boundary(b"1234567890abcdefghijklmnopqrstuvw").0
    );
}

#[test]
fn setters_keep_other_fields() {
    let mut m = meta_with(5, None, None);
    let b = m.boundary.0;
    m.set_name("doc");
    m.set_filename("info");
    m.set_buf_len(7);
    assert_eq!(m.name.as_deref(), Some("doc"));
    assert_eq!(m.filename.as_deref(), Some("info"));
    assert_eq!(m.buf_len, 7);
    assert_eq!(m.boundary.0, b);
}

#[test]
fn head_with_swapped_clauses() {
    let m = meta_with(10, Some("doc"), Some("info"));
    let b = m.boundary.to_str();
    let head = text(&m.write_head(2));
    assert!(head.contains("filename=\"doc\";"));
    assert!(head.contains("name=\"info.2\";"));
    assert_eq!(
        head,
        format!(
            "--{}\r\nContent-Disposition: form-data; filename=\"doc\"; name=\"info.2\";\r\n\r\n",
            b
        )
    );
}

#[test]
fn head_without_names_and_multi_digit_index() {
    let m = meta_with(10, None, None);
    let b = m.boundary.to_str();
    assert_eq!(
        text(&m.write_head(0)),
        format!("--{}\r\nContent-Disposition: form-data;\r\n\r\n", b)
    );
    let m = meta_with(10, None, Some("f"));
    assert_eq!(
        text(&m.write_head(1203)),
        format!("--{}\r\nContent-Disposition: form-data; name=\"f.1203\";\r\n\r\n", b)
    );
}

#[test]
fn tail_closes_only_short_bodies() {
    let m = meta_with(4, None, None);
    let b = m.boundary.to_str();
    assert_eq!(text(&m.write_tail(4)), "\r\n");
    assert_eq!(text(&m.write_tail(9)), "\r\n");
    assert_eq!(text(&m.write_tail(3)), format!("\r\n--{}--\r\n", b));
    assert_eq!(text(&m.write_tail(0)), format!("\r\n--{}--\r\n", b));
}

#[test]
fn frames_ascii_source_in_fives() {
    let mut s = Streamer::new(Streaming::from("1234567890abcdefghijklmnopqrstuvw"));
    s.meta.set_buf_len(5);
    s.meta.set_name("doc");
    s.meta.set_filename("info");
    let b = s.meta.boundary.to_str();
    let frames = drain(s);
    let bodies: Vec<String> = frames.iter().map(|f| text(&f.body)).collect();
    assert_eq!(
        bodies,
        vec!["12345", "67890", "abcde", "fghij", "klmno", "pqrst", "uvw"]
    );
    for (i, f) in frames.iter().enumerate() {
        assert!(text(&f.head).contains(&format!("name=\"info.{}\";", i)));
        if i + 1 < frames.len() {
            assert_eq!(text(&f.tail), "\r\n");
        } else {
            assert_eq!(text(&f.tail), format!("\r\n--{}--\r\n", b));
        }
    }
}

#[test]
fn exact_multiple_is_not_closed() {
    let mut s = Streamer::new(Streaming::from([1u8, 2, 3, 4, 5, 6, 7, 8]));
    s.meta.set_buf_len(4);
    let frames = drain(s);
    assert_eq!(frames.len(), 2);
    assert_eq!(frames[0].body, vec![1, 2, 3, 4]);
    assert_eq!(frames[1].body, vec![5, 6, 7, 8]);
    assert_eq!(frames[0].tail, b"\r\n".to_vec());
    assert_eq!(frames[1].tail, b"\r\n".to_vec());
}

#[test]
fn bodies_rebuild_the_source() {
    let data: Vec<u8> = (0..=255u8).chain(0..100u8).collect();
    for n in [1usize, 3, 7, 64, 356, 1000] {
        let mut s = Streamer::new(Streaming::new(data.clone()));
        s.meta.set_buf_len(n);
        let frames = drain(s);
        assert_eq!(frames.len(), (data.len() + n - 1) / n);
        let joined: Vec<u8> = frames.into_iter().flat_map(|f| f.body).collect();
        assert_eq!(joined, data);
    }
}

#[test]
fn empty_source_gives_no_part() {
    let mut s = Streamer::new(Streaming::from(String::new()));
    assert!(s.next_part().is_none());
    assert_eq!(s.ind, 0);
}
