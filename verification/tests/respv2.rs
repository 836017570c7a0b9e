use bytes::BytesMut;
use simple_redis::{
    parse_frame, parse_frame_length, RespDecodeV2, RespError, RespFrame, RespMap,
};

#[test]
fn respv2_simple_string_length_should_work() {
    let buf = b"+OK\r\n";
    let len = RespFrame::expect_length(buf).unwrap();
    assert_eq!(len, buf.len());
}

#[test]
fn respv2_simple_string_bad_length_should_fail() {
    let buf = b"+OK\r";
    let err = RespFrame::expect_length(buf).unwrap_err();
    assert_eq!(err, RespError::NotComplete);
}

#[test]
fn respv2_simple_string_should_work() {
    let mut buf = BytesMut::from("+OK\r\n");
    let frame = RespFrame::decode(&mut buf).unwrap();
    assert_eq!(frame, RespFrame::SimpleString("OK".into()));
}

#[test]
fn respv2_simple_error_length_should_work() {
    let buf = b"-ERR\r\n";
    let len = RespFrame::expect_length(buf).unwrap();
    assert_eq!(len, buf.len());
}

#[test]
fn respv2_simple_error_should_work() {
    let mut buf = BytesMut::from("-ERR\r\n");
    let frame = RespFrame::decode(&mut buf).unwrap();
    assert_eq!(frame, RespFrame::Error("ERR".into()));
}

#[test]
fn respv2_integer_length_should_work() {
    let buf = b":1000\r\n";
    let len = RespFrame::expect_length(buf).unwrap();
    assert_eq!(len, buf.len());
}

#[test]
fn respv2_integer_should_work() {
    let mut buf = BytesMut::from(":1000\r\n");
    let frame = RespFrame::decode(&mut buf).unwrap();
    assert_eq!(frame, RespFrame::Integer(1000));
}

#[test]
fn respv2_bulk_string_length_should_work() {
    let buf = b"$6\r\nfoobar\r\n";
    let len = RespFrame::expect_length(buf).unwrap();
    assert_eq!(len, buf.len());
}

#[test]
fn respv2_bulk_string_should_work() {
    let mut buf = BytesMut::from("$6\r\nfoobar\r\n");
    let frame = RespFrame::decode(&mut buf).unwrap();
    assert_eq!(frame, RespFrame::BulkString("foobar".into()));
}

#[test]
fn respv2_null_bulk_string_length_should_work() {
    let buf = b"$-1\r\n";
    let len = RespFrame::expect_length(buf).unwrap();
    assert_eq!(len, buf.len());
}

#[test]
fn respv2_array_length_should_work() {
    let buf = b"*2\r\n+OK\r\n-ERR\r\n";
    let len = RespFrame::expect_length(buf).unwrap();
    assert_eq!(len, buf.len());
}

#[test]
fn respv2_array_should_work() {
    let mut buf = BytesMut::from("*2\r\n+OK\r\n-ERR\r\n");
    let frame = RespFrame::decode(&mut buf).unwrap();
    assert_eq!(
        frame,
        RespFrame::Array(
            vec![
                RespFrame::SimpleString("OK".into()),
                RespFrame::Error("ERR".into())
            ]
            .into()
        )
    );
}

#[test]
fn respv2_null_array_length_should_work() {
    let buf = b"*-1\r\n";
    let len = RespFrame::expect_length(buf).unwrap();
    assert_eq!(len, buf.len());
}

#[test]
fn respv2_map_length_should_work() {
    let buf = b"%1\r\n+OK\r\n-ERR\r\n";
    let len = RespFrame::expect_length(buf).unwrap();
    assert_eq!(len, buf.len());
}

#[test]
fn respv2_map_should_work() {
    let mut buf = BytesMut::from("%1\r\n+OK\r\n-ERR\r\n");
    let frame = RespFrame::decode(&mut buf).unwrap();
    let mut items = RespMap::new();
    items.insert("OK".to_string(), RespFrame::Error("ERR".into()));
    assert_eq!(frame, RespFrame::MapOf(items));
}

#[test]
fn test_bulk_string_len() {
    let input = b"$4\r\nping\r\n";
    let input = &input[..];
    let len = parse_frame_length(input).unwrap();
    assert_eq!(input.len(), len);
}

#[test]
fn test_array_len() {
    let input = b"*2\r\n$4\r\nping\r\n$4\r\npong\r\n";
    let input = &input[..];
    let len = parse_frame_length(input).unwrap();
    assert_eq!(input.len(), len);
}

#[test]
fn test_map_len() {
    let input = b"%2\r\n+first\r\n:1\r\n+second\r\n:2\r\n";
    let input = &input[..];
    let len = parse_frame_length(input);
    match len {
        Ok(len) => assert_eq!(input.len(), len),
        Err(e) => panic!("{:?}", e),
    }
}

#[test]
fn test_set_len() {
    let input = b"~2\r\n$4\r\nping\r\n$4\r\npong\r\n";
    let input = &input[..];
    let len = parse_frame_length(input).unwrap();
    assert_eq!(input.len(), len);
}

#[test]
fn parse_frame_moves_behind_the_frame() {
    let bytes = b"*2\r\n$4\r\nping\r\n:7\r\n+rest\r\n";
    let mut input = &bytes[..];
    let frame = parse_frame(&mut input).unwrap();
    assert_eq!(
        frame,
        RespFrame::Array(
            vec![
                RespFrame::BulkString(b"ping".into()),
                RespFrame::Integer(7)
            ]
            .into()
        )
    );
    assert_eq!(input, b"+rest\r\n");
}

#[test]
fn parse_frame_failures_are_fatal_and_keep_the_input() {
    let bytes = b":12a\r\n";
    let mut input = &bytes[..];
    assert_eq!(parse_frame(&mut input).unwrap_err(), RespError::InvalidFrame);
    assert_eq!(input, b":12a\r\n");

    let bytes = b"$5\r\nhel";
    let mut input = &bytes[..];
    assert_eq!(parse_frame(&mut input).unwrap_err(), RespError::InvalidFrame);
    assert_eq!(input, b"$5\r\nhel");
}

#[test]
fn length_probe_collapses_every_failure() {
    assert_eq!(parse_frame_length(b""), Err(RespError::NotComplete));
    assert_eq!(parse_frame_length(b"x\r\n"), Err(RespError::NotComplete));
    assert_eq!(parse_frame_length(b"$abc\r\n"), Err(RespError::NotComplete));
    assert_eq!(parse_frame_length(b"*2\r\n+OK\r\n"), Err(RespError::NotComplete));
    // the probe reads the structure only: the span of a frame that holds no
    // number is still found
    assert_eq!(parse_frame_length(b":12a\r\n+OK\r\n"), Ok(6));
}

#[test]
fn batch_decode_splits_the_span_off() {
    let mut buf = BytesMut::from("$3\r\nabc\r\n:1\r\n");
    let frame = RespFrame::decode(&mut buf).unwrap();
    assert_eq!(frame, RespFrame::BulkString(b"abc".into()));
    assert_eq!(&buf[..], b":1\r\n");

    // no whole frame: nothing leaves the buffer
    let mut buf = BytesMut::from("$3\r\nab");
    assert_eq!(RespFrame::decode(&mut buf).unwrap_err(), RespError::NotComplete);
    assert_eq!(&buf[..], b"$3\r\nab");

    // a whole span without a frame in it: the span leaves the buffer
    let mut buf = BytesMut::from(":x\r\n+OK\r\n");
    assert_eq!(RespFrame::decode(&mut buf).unwrap_err(), RespError::InvalidFrame);
    assert_eq!(&buf[..], b"+OK\r\n");
}
