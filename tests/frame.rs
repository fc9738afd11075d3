use redis_starter_rust::frame::{Frame, FrameError};

#[test]
fn test_parse_simple_string() -> Result<(), FrameError> {
    let raw_bulk = b"+PING\r\n";

    let frame = Frame::parse(raw_bulk)?;

    assert_eq!(Frame::SimpleString(String::from("PING")), frame);

    Ok(())
}

#[test]
fn test_parse_bulk_string() -> Result<(), FrameError> {
    let raw_bulk = b"$4\r\nPING\r\n";

    let frame = Frame::parse(raw_bulk)?;

    assert_eq!(Frame::BulkString(String::from("PING")), frame);

    Ok(())
}

#[test]
fn test_parse_arrays() -> Result<(), FrameError> {
    let raw_bulk = b"*2\r\n$3\r\nabc\r\n$3\r\nxyz\r\n";

    let frame = Frame::parse(raw_bulk)?;

    let expected = Frame::Arrays(vec![String::from("abc"), String::from("xyz")]);

    assert_eq!(expected, frame);

    Ok(())
}

#[test]
fn parse_null_bulk_string() {
    assert_eq!(Frame::parse(b"$-1\r\n"), Ok(Frame::Null));
}

#[test]
fn parse_empty_buffer_is_unknown() {
    assert_eq!(Frame::parse(b""), Ok(Frame::Unknown));
}

#[test]
fn parse_unknown_leading_byte() {
    assert_eq!(Frame::parse(b"!oops\r\n"), Ok(Frame::Unknown));
}

#[test]
fn parse_non_numeric_length_reads_empty() {
    assert_eq!(Frame::parse(b"$x\r\nabc\r\n"), Ok(Frame::BulkString(String::new())));
}

#[test]
fn parse_short_bulk_string_is_incomplete() {
    assert_eq!(Frame::parse(b"$10\r\nabc\r\n"), Err(FrameError::Incomplete));
}

#[test]
fn parse_array_with_short_element_is_incomplete() {
    assert_eq!(Frame::parse(b"*1\r\n$9\r\nab\r\n"), Err(FrameError::Incomplete));
}

#[test]
fn parse_array_with_fewer_elements_than_announced() {
    let frame = Frame::parse(b"*3\r\n$1\r\na\r\n").unwrap();
    assert_eq!(frame, Frame::Arrays(vec![String::from("a")]));
}

#[test]
fn parse_invalid_utf8_is_replaced() {
    let frame = Frame::parse(b"$2\r\n\xff\xfe\r\n").unwrap();
    assert_eq!(frame, Frame::BulkString(String::from("\u{fffd}\u{fffd}")));
}

#[test]
fn encode_simple_string() {
    assert_eq!(Frame::SimpleString(String::from("OK")).encode(), b"+OK\r\n".to_vec());
}

#[test]
fn encode_bulk_string_counts_bytes() {
    assert_eq!(Frame::BulkString(String::from("héllo")).encode(), b"$6\r\nh\xc3\xa9llo\r\n".to_vec());
}

#[test]
fn encode_null() {
    assert_eq!(Frame::Null.encode(), b"$-1\r\n".to_vec());
}

#[test]
fn encode_array() {
    let f = Frame::Arrays(vec![String::from("SET"), String::from("a"), String::from("")]);
    assert_eq!(f.encode(), b"*3\r\n$3\r\nSET\r\n$1\r\na\r\n$0\r\n\r\n".to_vec());
}

#[test]
fn encode_raw_bytes_has_no_terminator() {
    let f = Frame::BulkBytes(vec![1, 2, 3]);
    assert_eq!(f.encode(), b"$3\r\n\x01\x02\x03".to_vec());
}

#[test]
fn encode_unknown_is_empty() {
    assert!(Frame::Unknown.encode().is_empty());
}

#[test]
fn round_trip_of_each_decodable_kind() {
    let frames = vec![
        Frame::SimpleString(String::from("FULLRESYNC abc 0")),
        Frame::SimpleString(String::new()),
        Frame::BulkString(String::from("a\r\nb")),
        Frame::BulkString(String::new()),
        Frame::Arrays(vec![]),
        Frame::Arrays(vec![String::from("x"), String::new(), String::from("héllo wörld 1234567890")]),
        Frame::Null,
        Frame::Unknown,
    ];
    for f in frames {
        let bytes = f.encode();
        assert_eq!(Frame::parse(&bytes), Ok(f));
    }
}

#[test]
fn to_vec_lists_arguments() {
    assert_eq!(Frame::SimpleString(String::from("a")).to_vec(), vec![String::from("a")]);
    assert_eq!(Frame::BulkString(String::from("b")).to_vec(), vec![String::from("b")]);
    assert_eq!(
        Frame::Arrays(vec![String::from("c"), String::from("d")]).to_vec(),
        vec![String::from("c"), String::from("d")]
    );
    assert!(Frame::Null.to_vec().is_empty());
}

#[test]
fn parse_lengths_with_plus_sign() {
    assert_eq!(Frame::parse(b"$+4\r\nPING\r\n"), Ok(Frame::BulkString(String::from("PING"))));
    assert_eq!(
        Frame::parse(b"*+1\r\n$+1\r\na\r\n"),
        Ok(Frame::Arrays(vec![String::from("a")]))
    );
    assert_eq!(Frame::parse(b"$+\r\nab\r\n"), Ok(Frame::BulkString(String::new())));
}
