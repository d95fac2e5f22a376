use serial_bridge::codec::{encode_line, LineReader};
use serial_bridge::line::Line;

fn line(s: &[u8]) -> Line {
    Line::new(s.to_vec()).unwrap()
}

fn views(lines: &[Line]) -> Vec<Vec<u8>> {
    let mut out: Vec<Vec<u8>> = Vec::new();
    for l in lines {
        out.push(l.as_bytes().to_vec());
    }
    out
}

#[test]
fn line_rejects_embedded_delimiter() {
    assert!(Line::new(b"ab\ncd".to_vec()).is_none());
    assert!(Line::new(b"\n".to_vec()).is_none());
}

#[test]
fn line_accepts_plain_text() {
    let l = line(b"hello");
    assert_eq!(l.as_bytes(), b"hello");
    assert_eq!(l.len(), 5);
    assert!(!l.is_empty());
}

#[test]
fn empty_line_is_a_line() {
    let l = Line::new(Vec::new()).unwrap();
    assert!(l.is_empty());
    assert_eq!(l.as_bytes(), b"");
}

#[test]
fn encode_appends_delimiter() {
    assert_eq!(encode_line(&line(b"hello")), b"hello\n".to_vec());
}

#[test]
fn encode_empty_line_is_just_delimiter() {
    assert_eq!(encode_line(&Line::empty()), b"\n".to_vec());
}

#[test]
fn reader_splits_chunks_at_delimiters() {
    let mut r = LineReader::new();
    assert_eq!(r.push_bytes(b"ab").len(), 0);
    let got = r.push_bytes(b"c\nde\nf");
    assert_eq!(views(&got), vec![b"abc".to_vec(), b"de".to_vec()]);
    let got = r.push_bytes(b"\n");
    assert_eq!(views(&got), vec![b"f".to_vec()]);
    assert_eq!(r.push_bytes(b"").len(), 0);
}

#[test]
fn reader_round_trip_returns_the_line() {
    let l = line(b"roundtrip me");
    let wire = encode_line(&l);
    let mut r = LineReader::new();
    let got = r.push_bytes(wire.as_slice());
    assert_eq!(views(&got), vec![b"roundtrip me".to_vec()]);
}

#[test]
fn reader_reports_buffered_bytes() {
    let mut r = LineReader::new();
    assert_eq!(r.buffered_len(), 0);
    r.push_bytes(b"abc");
    assert_eq!(r.buffered_len(), 3);
    r.push_bytes(b"de\nf");
    assert_eq!(r.buffered_len(), 1);
}

#[test]
fn reader_keeps_empty_lines() {
    let mut r = LineReader::new();
    let got = r.push_bytes(b"\n\n");
    assert_eq!(views(&got), vec![b"".to_vec(), b"".to_vec()]);
}
