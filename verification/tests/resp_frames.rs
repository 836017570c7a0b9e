use bytes::{BufMut, BytesMut};
use simple_redis::{
    BulkString, RespArray, RespDecode, RespDouble, RespEncode, RespError, RespFrame, RespMap,
    RespNull, SimpleError, SimpleString,
};

/// The decimal number that a float writes in its shortest form.
fn double(value: f64) -> RespDouble {
    let text = format!("{:e}", value.abs());
    let (digits, exponent) = text.split_once('e').unwrap();
    let mut parts = digits.split('.');
    let whole = parts.next().unwrap();
    let fraction = parts.next().unwrap_or("");
    let mantissa: u64 = format!("{}{}", whole, fraction).parse().unwrap();
    let exponent: i16 = exponent.parse::<i16>().unwrap() - fraction.len() as i16;
    RespDouble::new(value.is_sign_negative(), mantissa, exponent)
}

/// The float that a decimal number is nearest to.
fn float(value: &RespDouble) -> f64 {
    let sign = if value.is_negative() { "-" } else { "" };
    format!("{}{}e{}", sign, value.mantissa(), value.exponent())
        .parse()
        .unwrap()
}

#[test]
fn test_null_array_decode() {
    let mut buf = BytesMut::new();
    buf.extend_from_slice(b"*-1\r\n");

    let frame = RespArray::decode(&mut buf).unwrap();
    assert_eq!(frame, RespArray::new(vec![]));
}

#[test]
fn test_array_decode() {
    let mut buf = BytesMut::new();
    buf.extend_from_slice(b"*2\r\n$3\r\nset\r\n$5\r\nhello\r\n");

    let frame = RespArray::decode(&mut buf).unwrap();
    assert_eq!(
        frame,
        RespArray::new(vec![
            RespFrame::BulkString(b"set".into()),
            RespFrame::BulkString(b"hello".into())
        ])
    );

    buf.extend_from_slice(b"*2\r\n$3\r\nset\r\n");
    let ret = RespArray::decode(&mut buf);
    assert_eq!(ret.unwrap_err(), RespError::NotComplete);
    buf.extend_from_slice(b"$5\r\nhello\r\n");
    let frame = RespArray::decode(&mut buf).unwrap();
    assert_eq!(
        frame,
        RespArray::new(vec![
            RespFrame::BulkString(b"set".into()),
            RespFrame::BulkString(b"hello".into())
        ])
    );
}

#[test]
fn test_array_encode() {
    let frame: RespFrame = RespArray::new(vec![
        BulkString::new("set".to_string().into_bytes()).into(),
        BulkString::new("hello".to_string().into_bytes()).into(),
        BulkString::new("world".to_string().into_bytes()).into(),
    ])
    .into();
    assert_eq!(
        &frame.encode(),
        b"*3\r\n$3\r\nset\r\n$5\r\nhello\r\n$5\r\nworld\r\n"
    );
}

#[test]
fn test_null_array_encode() {
    let frame: RespFrame = RespArray::new(vec![]).into();
    assert_eq!(frame.encode(), b"*-1\r\n");
}

#[test]
fn test_boolean_decode() {
    let mut buf = BytesMut::new();
    buf.extend_from_slice(b"#t\r\n");

    let frame = bool::decode(&mut buf).unwrap();
    assert!(frame);

    buf.extend_from_slice(b"#f\r\n");

    let frame = bool::decode(&mut buf).unwrap();
    assert!(!frame);

    buf.extend_from_slice(b"#t");
    let ret = bool::decode(&mut buf);
    assert_eq!(ret.unwrap_err(), RespError::NotComplete);

    buf.extend_from_slice(b"\r\n");
    let frame = bool::decode(&mut buf).unwrap();
    assert!(frame);
}

#[test]
fn test_boolean_encode() {
    let frame: RespFrame = true.into();
    assert_eq!(frame.encode(), b"#t\r\n");
    let frame: RespFrame = false.into();
    assert_eq!(frame.encode(), b"#f\r\n");
}

#[test]
fn test_bulk_string_decode() {
    let mut buf = BytesMut::new();
    buf.extend_from_slice(b"$5\r\nhello\r\n");

    let frame = BulkString::decode(&mut buf).unwrap();
    assert_eq!(frame, BulkString::new(b"hello".to_vec()));

    buf.extend_from_slice(b"$5\r\nworld");
    let ret = BulkString::decode(&mut buf);
    assert_eq!(ret.unwrap_err(), RespError::NotComplete);

    buf.extend_from_slice(b"\r\n");
    let frame = BulkString::decode(&mut buf).unwrap();
    assert_eq!(frame, BulkString::new(b"world".to_vec()));
}

#[test]
fn test_null_bulk_string_decode() {
    let mut buf = BytesMut::new();
    buf.extend_from_slice(b"$-1\r\n");

    let frame = BulkString::decode(&mut buf).unwrap();
    assert_eq!(frame, BulkString::new(vec![]));
}

#[test]
fn test_bulk_string_encode() {
    let frame: RespFrame = BulkString::new(b"hello".to_vec()).into();
    assert_eq!(frame.encode(), b"$5\r\nhello\r\n");
}

#[test]
fn test_null_bulk_string_encode() {
    let frame: RespFrame = BulkString::new(vec![]).into();
    assert_eq!(frame.encode(), b"$-1\r\n");
}

#[test]
fn test_double_decode() {
    let mut buf = BytesMut::new();
    buf.extend_from_slice(b",+123.456\r\n");

    let frame = RespDouble::decode(&mut buf).unwrap();
    assert_eq!(float(&frame), 123.456);
    assert_eq!(frame, double(123.456));

    buf.extend_from_slice(b",-123.456\r\n");
    let frame = RespDouble::decode(&mut buf).unwrap();
    assert_eq!(float(&frame), -123.456);
    assert_eq!(frame, double(-123.456));
}

#[test]
fn test_double_encode() {
    let frame: RespFrame = double(123.456).into();
    assert_eq!(frame.encode(), b",+123.456\r\n");
    let frame: RespFrame = double(-123.456).into();
    assert_eq!(frame.encode(), b",-123.456\r\n");
    let frame: RespFrame = double(1.23456e+8).into();
    assert_eq!(frame.encode(), b",+1.23456e8\r\n");
    let frame: RespFrame = double(-1.23456e-9).into();
    assert_eq!(&frame.encode(), b",-1.23456e-9\r\n");
}

#[test]
fn test_integer_decode() {
    let mut buf = BytesMut::new();
    buf.extend_from_slice(b":123\r\n");

    let frame = i64::decode(&mut buf).unwrap();
    assert_eq!(frame, 123);

    buf.extend_from_slice(b":-123\r\n");
    let frame = i64::decode(&mut buf).unwrap();
    assert_eq!(frame, -123);
}

#[test]
fn test_integer_encode() {
    let frame: RespFrame = 123.into();
    assert_eq!(&frame.encode(), b":123\r\n");
    let frame: RespFrame = (-123).into();
    assert_eq!(frame.encode(), b":-123\r\n");
}

#[test]
fn test_map_decode() {
    let mut buf = BytesMut::new();
    buf.extend_from_slice(b"%2\r\n+hello\r\n$5\r\nworld\r\n+foo\r\n$3\r\nbar\r\n");

    let frame = RespMap::decode(&mut buf).unwrap();
    let mut map = RespMap::new();
    map.insert(
        "hello".to_string(),
        BulkString::new(b"world".to_vec()).into(),
    );
    map.insert("foo".to_string(), BulkString::new(b"bar".to_vec()).into());
    assert_eq!(frame, map);
}

#[test]
fn test_map_encode() {
    let mut map = RespMap::new();
    map.insert(
        "hello".to_string(),
        BulkString::new("world".to_string().into_bytes()).into(),
    );
    map.insert("foo".to_string(), double(-123456.789).into());
    let frame: RespFrame = map.into();
    assert_eq!(
        &frame.encode(),
        b"%2\r\n+foo\r\n,-123456.789\r\n+hello\r\n$5\r\nworld\r\n"
    );
}

#[test]
fn test_null_decode() {
    let mut buf = BytesMut::new();
    buf.extend_from_slice(b"_\r\n");

    let frame = RespNull::decode(&mut buf).unwrap();
    assert_eq!(frame, RespNull);
}

#[test]
fn test_null_encode() {
    let frame: RespFrame = RespNull.into();
    assert_eq!(frame.encode(), b"_\r\n");
}

#[test]
fn test_simple_error_decode() {
    let mut buf = BytesMut::new();
    buf.extend_from_slice(b"-Error message\r\n");

    let frame = SimpleError::decode(&mut buf).unwrap();
    assert_eq!(frame, SimpleError::new("Error message".to_string()));
}

#[test]
fn test_error_encode() {
    let frame: RespFrame = SimpleError::new("Error message".to_string()).into();
    assert_eq!(frame.encode(), b"-Error message\r\n");
}

#[test]
fn test_simple_string_decode() {
    let mut buf = BytesMut::new();
    buf.extend_from_slice(b"+OK\r\n");

    let frame = SimpleString::decode(&mut buf).unwrap();
    assert_eq!(frame, SimpleString::new("OK".to_string()));

    buf.extend_from_slice(b"+hello\r");

    let ret = SimpleString::decode(&mut buf);
    assert_eq!(ret.unwrap_err(), RespError::NotComplete);

    buf.put_u8(b'\n');
    let frame = SimpleString::decode(&mut buf).unwrap();
    assert_eq!(frame, SimpleString::new("hello".to_string()));
}

#[test]
fn test_simple_string_encode() {
    let frame: RespFrame = SimpleString::new("OK".to_string()).into();
    assert_eq!(frame.encode(), b"+OK\r\n");
}
