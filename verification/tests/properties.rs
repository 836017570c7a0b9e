use bytes::BytesMut;
use simple_redis::{
    BulkString, RespArray, RespDecode, RespDouble, RespEncode, RespError, RespFrame, RespMap,
    RespNull, RespSet, SimpleError, SimpleString,
};

fn bulk(bytes: &[u8]) -> RespFrame {
    RespFrame::BulkString(BulkString::new(bytes.to_vec()))
}

fn sample_map() -> RespMap {
    let mut map = RespMap::new();
    map.insert("zeta".to_string(), RespFrame::Integer(-7));
    map.insert("alpha".to_string(), bulk(b"first"));
    map.insert(
        "mid".to_string(),
        RespFrame::Array(RespArray::new(vec![RespFrame::Boolean(true), bulk(b"")])),
    );
    map
}

fn samples() -> Vec<RespFrame> {
    vec![
        RespFrame::SimpleString(SimpleString::new("OK".to_string())),
        RespFrame::SimpleString(SimpleString::new("".to_string())),
        RespFrame::SimpleString(SimpleString::new("gr\u{fc}\u{df}e \u{1f600}".to_string())),
        RespFrame::Error(SimpleError::new("ERR unknown command".to_string())),
        RespFrame::Integer(0),
        RespFrame::Integer(i64::MAX),
        RespFrame::Integer(i64::MIN),
        bulk(b"hello"),
        bulk(b"with\r\nline ends \xff inside"),
        bulk(b""),
        RespFrame::Array(RespArray::new(vec![])),
        RespFrame::Array(RespArray::new(vec![
            bulk(b"set"),
            RespFrame::Array(RespArray::new(vec![RespFrame::Integer(1), RespFrame::Null(RespNull)])),
            RespFrame::Array(RespArray::new(vec![])),
        ])),
        RespFrame::Null(RespNull),
        RespFrame::Boolean(true),
        RespFrame::Boolean(false),
        RespFrame::Double(RespDouble::new(false, 123456, -3)),
        RespFrame::Double(RespDouble::new(true, 5, -1)),
        RespFrame::Double(RespDouble::new(false, 1, 8)),
        RespFrame::Double(RespDouble::new(false, 1, -8)),
        RespFrame::Double(RespDouble::new(true, 123456, 3)),
        RespFrame::Double(RespDouble::new(false, 0, 0)),
        RespFrame::Double(RespDouble::new(true, 17, -30)),
        RespFrame::Double(RespDouble::new(false, u64::MAX, 300)),
        RespFrame::MapOf(RespMap::new()),
        RespFrame::MapOf(sample_map()),
        RespFrame::SetOf(RespSet::new(vec![])),
        RespFrame::SetOf(RespSet::new(vec![bulk(b"b"), bulk(b"a"), bulk(b"b")])),
    ]
}

#[test]
fn decoding_an_encoding_gives_the_frame_back() {
    for frame in samples() {
        let bytes = frame.clone().encode();
        let mut buf = BytesMut::from(&bytes[..]);
        let back = RespFrame::decode(&mut buf).unwrap();
        assert_eq!(back, frame);
        assert_eq!(buf.len(), 0);
        assert_eq!(RespFrame::expect_length(&bytes), Ok(bytes.len()));
    }
}

#[test]
fn a_frame_fed_byte_by_byte_is_incomplete_until_its_last_byte() {
    for frame in samples() {
        let bytes = frame.clone().encode();
        let mut buf = BytesMut::new();
        for (fed, byte) in bytes.iter().enumerate() {
            assert_eq!(
                RespFrame::decode(&mut buf).unwrap_err(),
                RespError::NotComplete
            );
            assert_eq!(
                RespFrame::expect_length(&buf).unwrap_err(),
                RespError::NotComplete
            );
            // nothing was taken out of the buffer
            assert_eq!(&buf[..], &bytes[..fed]);
            buf.extend_from_slice(&[*byte]);
        }
        assert_eq!(RespFrame::decode(&mut buf).unwrap(), frame);
        assert_eq!(buf.len(), 0);
    }
}

#[test]
fn decoding_takes_one_frame_and_leaves_the_others() {
    let mut buf = BytesMut::new();
    for frame in samples() {
        buf.extend_from_slice(&frame.encode());
    }
    for frame in samples() {
        assert_eq!(RespFrame::decode(&mut buf).unwrap(), frame);
    }
    assert_eq!(buf.len(), 0);
}

#[test]
fn empty_values_are_written_in_the_null_form() {
    assert_eq!(bulk(b"").encode(), b"$-1\r\n");
    assert_eq!(RespFrame::Array(RespArray::new(vec![])).encode(), b"*-1\r\n");
    // a length of zero is read as the empty value, and written back as null
    let mut buf = BytesMut::from("$0\r\n\r\n*0\r\n");
    let first = RespFrame::decode(&mut buf).unwrap();
    assert_eq!(first, bulk(b""));
    assert_eq!(first.encode(), b"$-1\r\n");
    let second = RespFrame::decode(&mut buf).unwrap();
    assert_eq!(second, RespFrame::Array(RespArray::new(vec![])));
    assert_eq!(second.encode(), b"*-1\r\n");
    assert_eq!(buf.len(), 0);
    // the other collections have no null form
    assert_eq!(RespFrame::MapOf(RespMap::new()).encode(), b"%0\r\n");
    assert_eq!(RespFrame::SetOf(RespSet::new(vec![])).encode(), b"~0\r\n");
}

#[test]
fn every_malformation_has_its_error() {
    let cases: [(&[u8], RespError); 16] = [
        (b"", RespError::NotComplete),
        (b"+OK", RespError::NotComplete),
        (b"$5\r\nhell", RespError::NotComplete),
        (b"*2\r\n:1\r\n", RespError::NotComplete),
        (b"x\r\n", RespError::InvalidFrameType),
        (b"$abc\r\n", RespError::InvalidFrameLength),
        (b"$-2\r\n", RespError::InvalidFrameLength),
        (b"*-3\r\n", RespError::InvalidFrameLength),
        (b"%-1\r\n", RespError::InvalidFrameLength),
        (b"~-1\r\n", RespError::InvalidFrameLength),
        (b"$2\r\nabcd", RespError::InvalidFrame),
        (b"#x\r\n", RespError::InvalidFrame),
        (b"%1\r\n:1\r\n:2\r\n", RespError::InvalidFrame),
        (b":12a\r\n", RespError::ParseIntError),
        (b"+\xff\xfe\r\n", RespError::Utf8Error),
        (b",1.2.3\r\n", RespError::ParseFloatError),
    ];
    for (bytes, error) in cases {
        let mut buf = BytesMut::from(bytes);
        assert_eq!(RespFrame::decode(&mut buf).unwrap_err(), error);
        // an error leaves the buffer as it was
        assert_eq!(&buf[..], bytes);
    }
    assert_eq!(
        RespFrame::decode(&mut BytesMut::from("_x\r\n")).unwrap_err(),
        RespError::InvalidFrame
    );
    assert_eq!(
        RespFrame::decode(&mut BytesMut::from(":9223372036854775808\r\n")).unwrap_err(),
        RespError::ParseIntError
    );
}

#[test]
fn a_frame_type_decodes_its_own_frames_only() {
    let mut buf = BytesMut::from(":1\r\n");
    assert_eq!(
        SimpleString::decode(&mut buf).unwrap_err(),
        RespError::InvalidFrameType
    );
    assert_eq!(
        BulkString::expect_length(b"+OK\r\n").unwrap_err(),
        RespError::InvalidFrameType
    );
    assert_eq!(i64::decode(&mut buf), Ok(1));
    assert_eq!(i64::expect_length(b":1\r\n"), Ok(4));
    assert_eq!(bool::expect_length(b"#t\r\n"), Ok(4));
    assert_eq!(RespNull::expect_length(b"_\r\n"), Ok(3));
}

#[test]
fn integers_are_read_with_an_optional_sign() {
    for (bytes, value) in [
        (&b":+5\r\n"[..], 5i64),
        (b":-0\r\n", 0),
        (b":007\r\n", 7),
        (b":-9223372036854775808\r\n", i64::MIN),
        (b":9223372036854775807\r\n", i64::MAX),
    ] {
        assert_eq!(i64::decode(&mut BytesMut::from(bytes)), Ok(value));
    }
    assert_eq!(RespFrame::Integer(i64::MIN).encode(), b":-9223372036854775808\r\n");
    for bytes in [&b":\r\n"[..], b":-\r\n", b":+\r\n", b":1 \r\n", b":--1\r\n"] {
        assert_eq!(
            i64::decode(&mut BytesMut::from(bytes)),
            Err(RespError::ParseIntError)
        );
    }
}

#[test]
fn lengths_beyond_every_buffer_are_incomplete() {
    assert_eq!(
        RespFrame::expect_length(b"$99999999999999999999999999\r\nabc"),
        Err(RespError::NotComplete)
    );
    assert_eq!(
        RespFrame::expect_length(b"*99999999999999999999999999\r\n:1\r\n"),
        Err(RespError::NotComplete)
    );
    assert_eq!(
        RespFrame::expect_length(b"*99999999999999999999999999\r\n:1\r\nx"),
        Err(RespError::InvalidFrameType)
    );
}

#[test]
fn numbers_are_written_plain_between_1e_minus_8_and_1e8() {
    let text = |negative: bool, mantissa: u64, exponent: i16| {
        let bytes = RespFrame::Double(RespDouble::new(negative, mantissa, exponent)).encode();
        String::from_utf8(bytes).unwrap()
    };
    assert_eq!(text(false, 1, 8), ",+100000000\r\n");
    assert_eq!(text(false, 100000001, 0), ",+1.00000001e8\r\n");
    assert_eq!(text(false, 1, 9), ",+1e9\r\n");
    assert_eq!(text(true, 15, 8), ",-1.5e9\r\n");
    assert_eq!(text(false, 1, -8), ",+0.00000001\r\n");
    assert_eq!(text(false, 99, -10), ",+9.9e-9\r\n");
    assert_eq!(text(false, 5, -1), ",+0.5\r\n");
    assert_eq!(text(true, 1, -3), ",-0.001\r\n");
    assert_eq!(text(false, 42, 0), ",+42\r\n");
    assert_eq!(text(false, 4200, 0), ",+4200\r\n");
    assert_eq!(text(false, 0, 0), ",+0e0\r\n");
    assert_eq!(text(true, 0, 7), ",-0e0\r\n");
    assert_eq!(text(false, 123456789, -3), ",+123456.789\r\n");
}

#[test]
fn numbers_are_read_in_every_notation() {
    let read = |bytes: &[u8]| RespDouble::decode(&mut BytesMut::from(bytes));
    assert_eq!(read(b",1.5\r\n"), Ok(RespDouble::new(false, 15, -1)));
    assert_eq!(read(b",+1.50\r\n"), Ok(RespDouble::new(false, 15, -1)));
    assert_eq!(read(b",-0015e-1\r\n"), Ok(RespDouble::new(true, 15, -1)));
    assert_eq!(read(b",1E3\r\n"), Ok(RespDouble::new(false, 1, 3)));
    assert_eq!(read(b",1e+3\r\n"), Ok(RespDouble::new(false, 1000, 0)));
    assert_eq!(read(b",0.000\r\n"), Ok(RespDouble::new(false, 0, 0)));
    assert_eq!(read(b",-0e99\r\n"), Ok(RespDouble::new(true, 0, 0)));
    let number = read(b",12300e-4\r\n").unwrap();
    assert_eq!(
        (number.is_negative(), number.mantissa(), number.exponent()),
        (false, 123, -2)
    );
    for bytes in [
        &b",\r\n"[..],
        b",.5\r\n",
        b",5.\r\n",
        b",1e\r\n",
        b",abc\r\n",
        b",inf\r\n",
        b",1.2e3.4\r\n",
        b",18446744073709551616\r\n",
        b",1e2147483648\r\n",
    ] {
        assert_eq!(read(bytes), Err(RespError::ParseFloatError));
    }
    let largest = read(b",18446744073709551615e2147483647\r\n").unwrap();
    assert_eq!(
        (largest.mantissa(), largest.exponent()),
        (u64::MAX, i32::MAX)
    );
}

#[test]
fn a_map_keeps_the_last_value_of_a_key_and_the_order_of_the_keys() {
    let mut map = RespMap::new();
    assert!(map.is_empty());
    map.insert("b".to_string(), RespFrame::Integer(1));
    map.insert("a".to_string(), RespFrame::Integer(2));
    map.insert("b".to_string(), RespFrame::Integer(3));
    map.insert("ab".to_string(), RespFrame::Integer(4));
    assert_eq!(map.len(), 3);
    assert_eq!(map.get("b"), Some(&RespFrame::Integer(3)));
    assert_eq!(map.get("c"), None);
    assert!(map.contains_key("ab"));
    assert_eq!(
        RespFrame::MapOf(map.clone()).encode(),
        b"%3\r\n+a\r\n:2\r\n+ab\r\n:4\r\n+b\r\n:3\r\n"
    );
    assert_eq!(map.remove("a"), Some(RespFrame::Integer(2)));
    assert_eq!(map.remove("a"), None);
    assert_eq!(map.len(), 2);

    // on the wire the later entry of a key wins too
    let mut buf = BytesMut::from("%3\r\n+k\r\n:1\r\n+j\r\n:2\r\n+k\r\n:3\r\n");
    let decoded = RespMap::decode(&mut buf).unwrap();
    let mut expected = RespMap::new();
    expected.insert("j".to_string(), RespFrame::Integer(2));
    expected.insert("k".to_string(), RespFrame::Integer(3));
    assert_eq!(decoded, expected);
}

#[test]
fn a_text_with_a_line_end_is_not_read_back() {
    // the one kind of frame that an encoding does not give back
    let frame = RespFrame::SimpleString(SimpleString::new("a\r\nb".to_string()));
    let mut buf = BytesMut::from(&frame.clone().encode()[..]);
    assert_eq!(
        RespFrame::decode(&mut buf).unwrap(),
        RespFrame::SimpleString(SimpleString::new("a".to_string()))
    );
}
