use rutinose::frame::Frame;
use rutinose::parse::{parse_frame, ParseError};

#[test]
fn test_num_of_bytes() {
    let frame = Frame::Simple(b"OK".to_vec()); // +OK\r\n
    assert_eq!(frame.num_of_bytes(), 5);

    let frame = Frame::Error(b"ERR".to_vec()); // -ERR\r\n
    assert_eq!(frame.num_of_bytes(), 6);

    let frame = Frame::Integer(100); // :100\r\n
    assert_eq!(frame.num_of_bytes(), 6);

    let frame = Frame::Bulk(b"Hello".to_vec()); // $5\r\nHello\r\n
    assert_eq!(frame.num_of_bytes(), 11);

    let frame = Frame::Null; // $-1\r\n
    assert_eq!(frame.num_of_bytes(), 5);

    // *5\r\n+OK\r\n-ERR\r\n:100\r\n$5\r\nHello\r\n$-1\r\n
    let frame = Frame::Array(vec![
        Frame::Simple(b"OK".to_vec()),
        Frame::Error(b"ERR".to_vec()),
        Frame::Integer(100),
        Frame::Bulk(b"Hello".to_vec()),
        Frame::Null,
    ]);
    assert_eq!(frame.num_of_bytes(), 37);
}

#[test]
fn num_of_bytes_matches_serialized_length() {
    let frames = vec![
        Frame::Simple(b"PONG".to_vec()),
        Frame::Error(b"ERR syntax error".to_vec()),
        Frame::Integer(0),
        Frame::Integer(18446744073709551615),
        Frame::Bulk(Vec::new()),
        Frame::Bulk(b"abc\r\ndef".to_vec()),
        Frame::Null,
        Frame::Array(vec![Frame::Bulk(b"GET".to_vec()), Frame::Bulk(b"key".to_vec())]),
        Frame::Array(Vec::new()),
    ];
    for f in &frames {
        assert_eq!(f.num_of_bytes() as usize, f.to_bytes().len());
    }
}

#[test]
fn parse_round_trips_every_frame_shape() {
    let frames = vec![
        Frame::Simple(b"OK".to_vec()),
        Frame::Error(b"Error message".to_vec()),
        Frame::Integer(1000),
        Frame::Bulk(b"foobar".to_vec()),
        Frame::Bulk(Vec::new()),
        Frame::Null,
        Frame::Array(vec![Frame::Bulk(b"foo".to_vec()), Frame::Bulk(b"bar".to_vec())]),
        Frame::Array(Vec::new()),
        Frame::Array(vec![Frame::Array(vec![Frame::Integer(7)]), Frame::Null]),
    ];
    for f in &frames {
        let bytes = f.to_bytes();
        let (parsed, used) = parse_frame(&bytes, 0).expect("round trip parse");
        assert_eq!(used, bytes.len());
        assert_eq!(parsed.to_bytes(), bytes);
    }
}

#[test]
fn empty_bulk_parses() {
    // $0\r\n\r\n is a valid empty bulk string.
    let (f, used) = parse_frame(b"$0\r\n\r\n", 0).unwrap();
    assert_eq!(used, 6);
    assert!(matches!(f, Frame::Bulk(ref b) if b.is_empty()));
}

#[test]
fn empty_array_parses() {
    // *0\r\n is a valid empty array.
    let (f, used) = parse_frame(b"*0\r\n", 0).unwrap();
    assert_eq!(used, 4);
    assert!(matches!(f, Frame::Array(ref v) if v.is_empty()));
}

#[test]
fn truncated_input_is_incomplete() {
    assert_eq!(parse_frame(b"$5\r\nab", 0).unwrap_err(), ParseError::Incomplete);
    assert_eq!(parse_frame(b"+OK", 0).unwrap_err(), ParseError::Incomplete);
    assert_eq!(parse_frame(b"*2\r\n$3\r\nfoo\r\n", 0).unwrap_err(), ParseError::Incomplete);
    assert_eq!(parse_frame(b"", 0).unwrap_err(), ParseError::Incomplete);
}

#[test]
fn garbage_is_malformed() {
    assert_eq!(parse_frame(b"hello\r\n", 0).unwrap_err(), ParseError::Malformed);
    assert_eq!(parse_frame(b":abc\r\n", 0).unwrap_err(), ParseError::Malformed);
    assert_eq!(parse_frame(b"$2\r\nabcd\r\n", 0).unwrap_err(), ParseError::Malformed);
}

#[test]
fn frames_parse_in_sequence() {
    let mut buf: Vec<u8> = Vec::new();
    buf.extend_from_slice(b"+OK\r\n");
    buf.extend_from_slice(b":42\r\n");
    buf.extend_from_slice(b"$3\r\nabc\r\n");
    let (f1, p1) = parse_frame(&buf, 0).unwrap();
    assert_eq!(f1.to_bytes(), b"+OK\r\n");
    let (f2, p2) = parse_frame(&buf, p1).unwrap();
    assert_eq!(f2.to_bytes(), b":42\r\n");
    let (f3, p3) = parse_frame(&buf, p2).unwrap();
    assert_eq!(f3.to_bytes(), b"$3\r\nabc\r\n");
    assert_eq!(p3, buf.len());
}
