use mafia::framing::{LineReader, ReadOutcome};

#[test]
fn empty_read_is_clean_close() {
    let mut r = LineReader::new();
    let out = r.feed(&[]);
    assert_eq!(out.len(), 1);
    assert!(matches!(out[0], ReadOutcome::Closed));
    // nothing more is reported afterwards
    let out2 = r.feed(b"late\n");
    assert_eq!(out2.len(), 0);
}

#[test]
fn invalid_utf8_closes_without_a_line() {
    let mut r = LineReader::new();
    let out = r.feed(&[0xff, 0xfe, b'\n', b'o', b'k', b'\n']);
    assert_eq!(out.len(), 1);
    assert!(matches!(out[0], ReadOutcome::BadUtf8));
    let out2 = r.feed(b"more\n");
    assert_eq!(out2.len(), 0);
}

#[test]
fn lines_split_and_trim() {
    let mut r = LineReader::new();
    let out = r.feed(b"  hello \r\nworld\n");
    assert_eq!(out.len(), 2);
    match &out[0] {
        ReadOutcome::Line(s) => assert_eq!(s, "hello"),
        _ => panic!("expected a line"),
    }
    match &out[1] {
        ReadOutcome::Line(s) => assert_eq!(s, "world"),
        _ => panic!("expected a line"),
    }
}

#[test]
fn partial_lines_span_reads() {
    let mut r = LineReader::new();
    assert_eq!(r.feed(b"hel").len(), 0);
    let out = r.feed(b"lo\nwor");
    assert_eq!(out.len(), 1);
    match &out[0] {
        ReadOutcome::Line(s) => assert_eq!(s, "hello"),
        _ => panic!("expected a line"),
    }
    let out2 = r.feed(b"ld\n");
    assert_eq!(out2.len(), 1);
    match &out2[0] {
        ReadOutcome::Line(s) => assert_eq!(s, "world"),
        _ => panic!("expected a line"),
    }
}

#[test]
fn overlong_line_errors() {
    let mut r = LineReader::new();
    let chunk = [b'a'; 65536];
    assert_eq!(r.feed(&chunk).len(), 0);
    let out = r.feed(b"b");
    assert_eq!(out.len(), 1);
    assert!(matches!(out[0], ReadOutcome::TooLong));
    assert_eq!(r.feed(b"c\n").len(), 0);
}

#[test]
fn multibyte_text_survives_framing() {
    let mut r = LineReader::new();
    let out = r.feed("héllo\n".as_bytes());
    assert_eq!(out.len(), 1);
    match &out[0] {
        ReadOutcome::Line(s) => assert_eq!(s, "héllo"),
        _ => panic!("expected a line"),
    }
}
