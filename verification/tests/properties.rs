use bytes::BytesMut;
use resp_codec::calc_total_length;
use resp_codec::double_notation;
use resp_codec::extract_fixed_data;
use resp_codec::extract_simple_frame_data;
use resp_codec::find_crlf;
use resp_codec::parse_length;
use resp_codec::with_explicit_sign;
use resp_codec::BulkString;
use resp_codec::FloatErrorKind;
use resp_codec::IntErrorKind;
use resp_codec::Notation;
use resp_codec::RespArray;
use resp_codec::RespDecode;
use resp_codec::RespDecodeError;
use resp_codec::RespDouble;
use resp_codec::RespEncode;
use resp_codec::RespFrame;
use resp_codec::RespMap;
use resp_codec::RespNull;
use resp_codec::RespNullArray;
use resp_codec::RespNullBulkString;
use resp_codec::RespSet;
use resp_codec::SimpleError;
use resp_codec::SimpleString;

fn buffer(bytes: &[u8]) -> BytesMut {
    BytesMut::from(bytes)
}

/// One literal example of each of the twelve types.
fn examples() -> Vec<&'static [u8]> {
    vec![
        b"+OK\r\n",
        b"-Error message\r\n",
        b":+123\r\n",
        b":-456\r\n",
        b"$5\r\nhello\r\n",
        b"$0\r\n\r\n",
        b"$-1\r\n",
        b"*2\r\n$3\r\nset\r\n$5\r\nhello\r\n",
        b"*0\r\n",
        b"*-1\r\n",
        b"_\r\n",
        b"#t\r\n",
        b"#f\r\n",
        b",+123.456\r\n",
        b",-1.23456e-8\r\n",
        b"%2\r\n+foo\r\n,-123456.789\r\n+hello\r\n$5\r\nworld\r\n",
        b"~2\r\n*2\r\n:+1234\r\n#t\r\n$5\r\nworld\r\n",
        b"*3\r\n%1\r\n+k\r\n~1\r\n_\r\n*1\r\n*-1\r\n$-1\r\n",
    ]
}

#[test]
fn round_trip_of_literal_examples() {
    for bytes in examples() {
        let mut buf = buffer(bytes);
        let frame = RespFrame::decode(&mut buf).unwrap();
        assert!(buf.is_empty());
        assert_eq!(frame.encode(), bytes);
    }
}

#[test]
fn incremental_feed_of_every_prefix() {
    for bytes in examples() {
        for cut in 0..bytes.len() {
            let mut buf = buffer(&bytes[..cut]);
            let ret = RespFrame::decode(&mut buf);
            assert_eq!(ret.unwrap_err(), RespDecodeError::NotComplete);
            assert_eq!(&buf[..], &bytes[..cut]);

            buf.extend_from_slice(&bytes[cut..]);
            let frame = RespFrame::decode(&mut buf).unwrap();
            assert!(buf.is_empty());
            assert_eq!(frame.encode(), bytes);
        }
    }
}

#[test]
fn oracle_is_exact_on_complete_frames() {
    for bytes in examples() {
        assert_eq!(RespFrame::expect_length(bytes), Ok(bytes.len()));
        let mut longer = bytes.to_vec();
        longer.extend_from_slice(b"+next\r\n");
        assert_eq!(RespFrame::expect_length(&longer), Ok(bytes.len()));
    }
}

#[test]
fn oracle_on_prefixes_waits_or_knows_the_length() {
    for bytes in examples() {
        for cut in 0..bytes.len() {
            match RespFrame::expect_length(&bytes[..cut]) {
                Ok(n) => assert_eq!(n, bytes.len()),
                Err(e) => assert_eq!(e, RespDecodeError::NotComplete),
            }
        }
    }
    assert_eq!(
        RespFrame::expect_length(b"+OK\r"),
        Err(RespDecodeError::NotComplete)
    );
    assert_eq!(
        RespFrame::expect_length(b"*2\r\n$3\r\nset\r\n"),
        Err(RespDecodeError::NotComplete)
    );
    // the header of a bulk string decides its length before the bytes arrive
    assert_eq!(RespFrame::expect_length(b"$5\r\nhel"), Ok(11));
    assert_eq!(RespFrame::expect_length(b"*1\r\n$5\r\nhel"), Ok(15));
    assert_eq!(
        RespFrame::expect_length(b"*2\r\n$5\r\nhel"),
        Err(RespDecodeError::NotComplete)
    );
}

#[test]
fn oracle_of_each_type() {
    assert_eq!(SimpleString::expect_length(b"+OK\r\n"), Ok(5));
    assert_eq!(SimpleError::expect_length(b"-Error message\r\n"), Ok(16));
    assert_eq!(i64::expect_length(b":-456\r\n"), Ok(7));
    assert_eq!(bool::expect_length(b"#t\r\n"), Ok(4));
    assert_eq!(RespNull::expect_length(b"_\r\n"), Ok(3));
    assert_eq!(RespNullArray::expect_length(b"*-1\r\n"), Ok(5));
    assert_eq!(RespNullBulkString::expect_length(b"$-1\r\n"), Ok(5));
    assert_eq!(RespDouble::expect_length(b",1e5\r\n"), Ok(6));
    assert_eq!(BulkString::expect_length(b"$5\r\nhello\r\n"), Ok(11));
    assert_eq!(BulkString::expect_length(b"$-1\r\n"), Ok(5));
    assert_eq!(RespArray::expect_length(b"*1\r\n#t\r\n"), Ok(8));
    assert_eq!(RespArray::expect_length(b"*-1\r\n"), Ok(5));
    assert_eq!(RespSet::expect_length(b"~1\r\n#t\r\n"), Ok(8));
    assert_eq!(RespMap::expect_length(b"%1\r\n+k\r\n#t\r\n"), Ok(12));
    assert_eq!(
        RespSet::expect_length(b"~-1\r\n"),
        Err(RespDecodeError::ParseIntError(IntErrorKind::InvalidDigit))
    );
    assert_eq!(
        RespFrame::expect_length(b"@bad\r\n"),
        Err(RespDecodeError::InvalidFrameType(
            "unknown frame type: b\"@bad\\r\\n\"".to_string()
        ))
    );
    assert_eq!(
        RespFrame::expect_length(b""),
        Err(RespDecodeError::NotComplete)
    );
    assert_eq!(
        RespMap::expect_length(b"%1\r\n$1\r\nk\r\n#t\r\n"),
        Err(RespDecodeError::InvalidFrameType(
            "expect: prefix(+), got: [36, 49, 13, 10, 107, 13, 10, 35, 116, 13, 10]".to_string()
        ))
    );
}

#[test]
fn nested_containers() {
    let mut buf = buffer(b"*2\r\n$3\r\nset\r\n$5\r\nhello\r\n");
    let frame = RespFrame::decode(&mut buf).unwrap();
    assert_eq!(
        frame,
        RespFrame::Array(RespArray::new(vec![
            RespFrame::BulkString(BulkString::new(b"set")),
            RespFrame::BulkString(BulkString::new(b"hello")),
        ]))
    );
    assert!(buf.is_empty());
}

#[test]
fn map_keys_are_sent_in_ascending_order() {
    let mut first = RespMap::new();
    first.insert("hello".to_string(), RespFrame::Integer(1));
    first.insert("foo".to_string(), RespFrame::Integer(2));
    let mut second = RespMap::new();
    second.insert("foo".to_string(), RespFrame::Integer(2));
    second.insert("hello".to_string(), RespFrame::Integer(1));
    assert_eq!(first, second);
    assert_eq!(first.len(), 2);
    assert_eq!(first.key_at(0), "foo");
    assert_eq!(first.key_at(1), "hello");
    assert_eq!(first.value_at(0), &RespFrame::Integer(2));
    let bytes = first.encode();
    assert_eq!(bytes, b"%2\r\n+foo\r\n:+2\r\n+hello\r\n:+1\r\n");
    assert_eq!(second.encode(), bytes);
}

#[test]
fn map_insert_replaces_and_returns_the_previous_frame() {
    let mut map = RespMap::new();
    assert_eq!(map.insert("b".to_string(), RespFrame::Integer(1)), None);
    assert_eq!(map.insert("a".to_string(), RespFrame::Integer(2)), None);
    assert_eq!(map.insert("ab".to_string(), RespFrame::Integer(3)), None);
    assert_eq!(
        map.insert("b".to_string(), RespFrame::Boolean(true)),
        Some(RespFrame::Integer(1))
    );
    assert_eq!(map.len(), 3);
    assert_eq!(
        map.encode(),
        b"%3\r\n+a\r\n:+2\r\n+ab\r\n:+3\r\n+b\r\n#t\r\n"
    );
}

#[test]
fn map_decode_keeps_the_last_of_equal_keys() {
    let mut buf = buffer(b"%3\r\n+k\r\n:1\r\n+a\r\n:2\r\n+k\r\n:3\r\n");
    let map = RespMap::decode(&mut buf).unwrap();
    assert!(buf.is_empty());
    assert_eq!(map.len(), 2);
    assert_eq!(map.encode(), b"%2\r\n+a\r\n:+2\r\n+k\r\n:+3\r\n");
}

#[test]
fn map_keys_must_be_simple_strings() {
    let bytes = b"%1\r\n$1\r\nk\r\n:1\r\n";
    let mut buf = buffer(bytes);
    let ret = RespMap::decode(&mut buf);
    assert!(matches!(
        ret.unwrap_err(),
        RespDecodeError::InvalidFrameType(_)
    ));
    assert_eq!(&buf[..], bytes);
}

#[test]
fn set_keeps_order_and_duplicates() {
    let bytes = b"~3\r\n:+2\r\n:+1\r\n:+2\r\n";
    let mut buf = buffer(bytes);
    let set = RespSet::decode(&mut buf).unwrap();
    assert_eq!(
        set,
        RespSet::new(vec![
            RespFrame::Integer(2),
            RespFrame::Integer(1),
            RespFrame::Integer(2)
        ])
    );
    assert_eq!(set.len(), 3);
    assert_eq!(set.encode(), bytes);
}

#[test]
fn double_notation_switches_at_the_thresholds() {
    assert_eq!(double_notation(1.23456e8f64.to_bits()), Notation::Scientific);
    assert_eq!(double_notation(1e8f64.to_bits()), Notation::Scientific);
    assert_eq!(double_notation((-1e8f64).to_bits()), Notation::Scientific);
    assert_eq!(double_notation(99999999.99999999f64.to_bits()), Notation::Fixed);
    assert_eq!(double_notation(1e-7f64.to_bits()), Notation::Scientific);
    assert_eq!(double_notation((-1.23456e-8f64).to_bits()), Notation::Scientific);
    assert_eq!(double_notation(1.0000000000000002e-7f64.to_bits()), Notation::Fixed);
    assert_eq!(double_notation(123.456f64.to_bits()), Notation::Fixed);
    assert_eq!(double_notation((-123.456f64).to_bits()), Notation::Fixed);
    assert_eq!(double_notation(0.0f64.to_bits()), Notation::Fixed);
    assert_eq!(double_notation((-0.0f64).to_bits()), Notation::Fixed);
    assert_eq!(double_notation(f64::INFINITY.to_bits()), Notation::Scientific);
    assert_eq!(double_notation(f64::NAN.to_bits()), Notation::Fixed);
    assert_eq!(double_notation(f64::MIN_POSITIVE.to_bits()), Notation::Scientific);
    assert_eq!(double_notation(f64::MAX.to_bits()), Notation::Scientific);
}

#[test]
fn fixed_notation_gets_its_sign() {
    assert_eq!(with_explicit_sign("123.456"), "+123.456");
    assert_eq!(with_explicit_sign("-123.456"), "-123.456");
    assert_eq!(with_explicit_sign("0"), "+0");
    assert_eq!(with_explicit_sign(""), "+");
}

#[test]
fn malformed_marker() {
    let mut buf = buffer(b"@bad\r\n");
    let ret = RespFrame::decode(&mut buf);
    assert_eq!(
        ret.unwrap_err(),
        RespDecodeError::InvalidFrameType("unknown frame type: b\"@bad\\r\\n\"".to_string())
    );
    assert_eq!(&buf[..], b"@bad\r\n");
}

#[test]
fn malformed_child_leaves_the_buffer_alone() {
    let bytes = b"*2\r\n:1\r\n:abc\r\n";
    let mut buf = buffer(bytes);
    let ret = RespFrame::decode(&mut buf);
    assert_eq!(
        ret.unwrap_err(),
        RespDecodeError::ParseIntError(IntErrorKind::InvalidDigit)
    );
    assert_eq!(&buf[..], bytes);

    let bytes = b"*2\r\n:1\r\n@x\r\n";
    let mut buf = buffer(bytes);
    let ret = RespFrame::decode(&mut buf);
    assert_eq!(
        ret.unwrap_err(),
        RespDecodeError::InvalidFrameType("unknown frame type: b\"@x\\r\\n\"".to_string())
    );
    assert_eq!(&buf[..], bytes);
}

#[test]
fn null_disambiguation() {
    let mut buf = buffer(b"$-1\r\n");
    assert_eq!(
        RespFrame::decode(&mut buf).unwrap(),
        RespFrame::NullBulkString(RespNullBulkString)
    );
    assert!(buf.is_empty());

    let mut buf = buffer(b"*-1\r\n");
    assert_eq!(
        RespFrame::decode(&mut buf).unwrap(),
        RespFrame::NullArray(RespNullArray)
    );
    assert!(buf.is_empty());

    let mut buf = buffer(b"$0\r\n\r\n");
    assert_eq!(
        RespFrame::decode(&mut buf).unwrap(),
        RespFrame::BulkString(BulkString::new(Vec::new()))
    );

    let mut buf = buffer(b"_\r\n");
    assert_eq!(RespNull::decode(&mut buf).unwrap(), RespNull);
    let mut buf = buffer(b"*-1\r\n");
    assert_eq!(RespNullArray::decode(&mut buf).unwrap(), RespNullArray);
    let mut buf = buffer(b"$-1\r\n");
    assert_eq!(
        RespNullBulkString::decode(&mut buf).unwrap(),
        RespNullBulkString
    );
    assert!(buf.is_empty());

    // the typed decoder of bulk strings knows no null form
    let mut buf = buffer(b"$-1\r\n");
    assert_eq!(
        BulkString::decode(&mut buf).unwrap_err(),
        RespDecodeError::ParseIntError(IntErrorKind::InvalidDigit)
    );
    assert_eq!(&buf[..], b"$-1\r\n");
    let mut buf = buffer(b"$-2\r\n");
    assert_eq!(
        RespFrame::decode(&mut buf).unwrap_err(),
        RespDecodeError::ParseIntError(IntErrorKind::InvalidDigit)
    );
}

#[test]
fn decode_leaves_the_next_frame_in_the_buffer() {
    let mut buf = buffer(b"+OK\r\n:7\r\n$2\r\nhi\r\n#");
    assert_eq!(
        RespFrame::decode(&mut buf).unwrap(),
        RespFrame::SimpleString(SimpleString::new("OK"))
    );
    assert_eq!(&buf[..], b":7\r\n$2\r\nhi\r\n#");
    assert_eq!(RespFrame::decode(&mut buf).unwrap(), RespFrame::Integer(7));
    assert_eq!(
        RespFrame::decode(&mut buf).unwrap(),
        RespFrame::BulkString(BulkString::new(b"hi"))
    );
    assert_eq!(
        RespFrame::decode(&mut buf).unwrap_err(),
        RespDecodeError::NotComplete
    );
    assert_eq!(&buf[..], b"#");
}

#[test]
fn integer_bodies() {
    let mut buf = buffer(b":9223372036854775807\r\n");
    assert_eq!(i64::decode(&mut buf).unwrap(), i64::MAX);
    let mut buf = buffer(b":-9223372036854775808\r\n");
    assert_eq!(i64::decode(&mut buf).unwrap(), i64::MIN);
    let mut buf = buffer(b":+0007\r\n");
    assert_eq!(i64::decode(&mut buf).unwrap(), 7);

    for (bytes, kind) in [
        (&b":9223372036854775808\r\n"[..], IntErrorKind::PosOverflow),
        (&b":-9223372036854775809\r\n"[..], IntErrorKind::NegOverflow),
        (&b":\r\n"[..], IntErrorKind::Empty),
        (&b":+\r\n"[..], IntErrorKind::InvalidDigit),
        (&b":-\r\n"[..], IntErrorKind::InvalidDigit),
        (&b":12a\r\n"[..], IntErrorKind::InvalidDigit),
        (&b": 1\r\n"[..], IntErrorKind::InvalidDigit),
    ] {
        let mut buf = buffer(bytes);
        assert_eq!(
            i64::decode(&mut buf).unwrap_err(),
            RespDecodeError::ParseIntError(kind)
        );
        assert_eq!(&buf[..], bytes);
    }

    assert_eq!(i64::MAX.encode(), b":+9223372036854775807\r\n");
    assert_eq!(i64::MIN.encode(), b":-9223372036854775808\r\n");
    assert_eq!(0i64.encode(), b":+0\r\n");
    assert_eq!(1000i64.encode(), b":+1000\r\n");
}

#[test]
fn double_bodies() {
    for text in [
        "1", "-1", "+1.5", "1.", ".5", "1e5", "1E-5", "1.e+5", "inf", "-Infinity", "NaN", "+nan",
        "123.456", "1.23456e8",
    ] {
        let bytes = format!(",{}\r\n", text).into_bytes();
        let mut buf = buffer(&bytes);
        let double = RespDouble::decode(&mut buf).unwrap();
        assert_eq!(double, RespDouble::new(text));
        assert!(double.0.parse::<f64>().is_ok());
        assert!(buf.is_empty());
        assert_eq!(double.encode(), bytes);
    }
    for text in [".", "e5", "1e", "1e+", "1.2.3", "1 ", " 1", "+", "-", "in", "nano", "0x10", "1_0"] {
        assert!(text.parse::<f64>().is_err());
        let bytes = format!(",{}\r\n", text).into_bytes();
        let mut buf = buffer(&bytes);
        assert_eq!(
            RespFrame::decode(&mut buf).unwrap_err(),
            RespDecodeError::ParseFloatError(FloatErrorKind::Invalid)
        );
        assert_eq!(&buf[..], &bytes[..]);
    }
    let mut buf = buffer(b",\r\n");
    assert_eq!(
        RespDouble::decode(&mut buf).unwrap_err(),
        RespDecodeError::ParseFloatError(FloatErrorKind::Empty)
    );
}

#[test]
fn text_bodies_are_read_lossily() {
    let mut buf = buffer(b"+caf\xc3\xa9\r\n");
    assert_eq!(
        SimpleString::decode(&mut buf).unwrap(),
        SimpleString::new("caf\u{e9}")
    );
    let mut buf = buffer(b"+a\xffb\r\n");
    assert_eq!(
        SimpleString::decode(&mut buf).unwrap(),
        SimpleString::new("a\u{fffd}b")
    );
    let mut buf = buffer(b"-\xff\r\n");
    assert_eq!(
        SimpleError::decode(&mut buf).unwrap(),
        SimpleError::new("\u{fffd}")
    );
    assert_eq!(SimpleString::new("caf\u{e9}").encode(), b"+caf\xc3\xa9\r\n");
}

#[test]
fn bulk_strings_hold_any_bytes() {
    let mut buf = buffer(b"$4\r\n\r\n\x00\xff\r\n+x\r\n");
    let bulk = BulkString::decode(&mut buf).unwrap();
    assert_eq!(bulk, BulkString::new(vec![13u8, 10, 0, 255]));
    assert_eq!(&buf[..], b"+x\r\n");
    assert_eq!(bulk.encode(), b"$4\r\n\r\n\x00\xff\r\n");
    assert_eq!(vec![1u8, 2].encode(), b"$2\r\n\x01\x02\r\n");

    let mut buf = buffer(b"$5\r\nhello\r");
    assert_eq!(
        BulkString::decode(&mut buf).unwrap_err(),
        RespDecodeError::NotComplete
    );
    let mut buf = buffer(b"$99999999999999999999999999\r\n");
    assert_eq!(
        BulkString::decode(&mut buf).unwrap_err(),
        RespDecodeError::ParseIntError(IntErrorKind::PosOverflow)
    );
    let huge = format!("${}\r\n", usize::MAX).into_bytes();
    assert_eq!(
        RespFrame::expect_length(&huge),
        Err(RespDecodeError::ParseIntError(IntErrorKind::PosOverflow))
    );
}

#[test]
fn wrong_leading_byte_for_a_type() {
    let mut buf = buffer(b"-Err\r\n");
    assert_eq!(
        SimpleString::decode(&mut buf).unwrap_err(),
        RespDecodeError::InvalidFrameType(
            "expect: prefix(+), got: [45, 69, 114, 114, 13, 10]".to_string()
        )
    );
    assert_eq!(&buf[..], b"-Err\r\n");
    let mut buf = buffer(b"+x\r\n");
    assert_eq!(
        RespNull::decode(&mut buf).unwrap_err(),
        RespDecodeError::InvalidFrameType("except: Null, got:b\"+x\\r\\n\"".to_string())
    );
    let mut buf = buffer(b"*1\r\n_\r\n");
    assert_eq!(
        RespNullArray::decode(&mut buf).unwrap_err(),
        RespDecodeError::InvalidFrameType(
            "except: RespNullArray, got:b\"*1\\r\\n_\\r\\n\"".to_string()
        )
    );
    let mut buf = buffer(b"+");
    assert_eq!(
        SimpleError::decode(&mut buf).unwrap_err(),
        RespDecodeError::NotComplete
    );
}

#[test]
fn fixed_literals() {
    let mut buf = buffer(b"#t\r\nrest");
    assert_eq!(extract_fixed_data(&mut buf, "#t\r\n", "Bool"), Ok(4));
    assert_eq!(&buf[..], b"rest");

    let mut buf = buffer(b"#t\r");
    assert_eq!(
        extract_fixed_data(&mut buf, "#t\r\n", "Bool"),
        Err(RespDecodeError::NotComplete)
    );
    assert_eq!(&buf[..], b"#t\r");

    let mut buf = buffer(b"#x");
    assert_eq!(
        extract_fixed_data(&mut buf, "#t\r\n", "Bool"),
        Err(RespDecodeError::InvalidFrameType(
            "except: Bool, got:b\"#x\"".to_string()
        ))
    );
    let mut buf = buffer(b"x");
    assert_eq!(
        extract_fixed_data(&mut buf, "#t\r\n", "Bool"),
        Err(RespDecodeError::NotComplete)
    );
    let mut buf = buffer(b"\t\"\\\x00\x7f~");
    assert_eq!(
        extract_fixed_data(&mut buf, "_\r\n", "Null"),
        Err(RespDecodeError::InvalidFrameType(
            "except: Null, got:b\"\\t\\\"\\\\\\0\\x7f~\"".to_string()
        ))
    );
}

#[test]
fn terminators_are_found_by_their_number() {
    assert_eq!(find_crlf(b"+OK\r\n", 1), Some(3));
    assert_eq!(find_crlf(b"*2\r\n$3\r\nset\r\n", 1), Some(2));
    assert_eq!(find_crlf(b"*2\r\n$3\r\nset\r\n", 2), Some(6));
    assert_eq!(find_crlf(b"*2\r\n$3\r\nset\r\n", 3), Some(11));
    assert_eq!(find_crlf(b"*2\r\n$3\r\nset\r\n", 4), None);
    assert_eq!(find_crlf(b"*2\r\n$3\r\nset\r\n", 0), None);
    // a terminator at the very start is not counted
    assert_eq!(find_crlf(b"\r\n\r\n", 1), Some(2));
    assert_eq!(find_crlf(b"\r\n", 1), None);
    assert_eq!(find_crlf(b"", 1), None);
    assert_eq!(find_crlf(b"a\r", 1), None);
    assert_eq!(find_crlf(b"a\r\r\n", 1), Some(2));
}

#[test]
fn headers() {
    assert_eq!(extract_simple_frame_data(b"+OK\r\n", "+"), Ok(3));
    assert_eq!(extract_simple_frame_data(b"+\r\n", "+"), Ok(1));
    assert_eq!(
        extract_simple_frame_data(b"+O", "+"),
        Err(RespDecodeError::NotComplete)
    );
    assert_eq!(
        extract_simple_frame_data(b"+OK\r", "+"),
        Err(RespDecodeError::NotComplete)
    );
    assert_eq!(
        extract_simple_frame_data(b"-OK\r\n", "+"),
        Err(RespDecodeError::InvalidFrameType(
            "expect: prefix(+), got: [45, 79, 75, 13, 10]".to_string()
        ))
    );
    assert_eq!(parse_length(b"$5\r\nhello\r\n", "$"), Ok((2, 5)));
    assert_eq!(parse_length(b"*+12\r\n", "*"), Ok((4, 12)));
    assert_eq!(parse_length(b"*007\r\n", "*"), Ok((4, 7)));
    assert_eq!(
        parse_length(b"*\r\n", "*"),
        Err(RespDecodeError::ParseIntError(IntErrorKind::Empty))
    );
    assert_eq!(
        parse_length(b"*-1\r\n", "*"),
        Err(RespDecodeError::ParseIntError(IntErrorKind::InvalidDigit))
    );
    assert_eq!(
        parse_length(b"*1x\r\n", "*"),
        Err(RespDecodeError::ParseIntError(IntErrorKind::InvalidDigit))
    );
    assert_eq!(
        parse_length(b"*99999999999999999999999\r\n", "*"),
        Err(RespDecodeError::ParseIntError(IntErrorKind::PosOverflow))
    );
    assert_eq!(
        parse_length(b"*1", "*"),
        Err(RespDecodeError::NotComplete)
    );
    // a prefix that reaches into the terminator leaves no digits
    assert_eq!(
        parse_length(b"ab\r\ncd", "ab\r\nc"),
        Err(RespDecodeError::ParseIntError(IntErrorKind::Empty))
    );
}

#[test]
fn total_length_of_containers() {
    let buf = b"%2\r\n+hello\r\n$5\r\nworld\r\n+foo\r\n$3\r\nbar\r\n";
    let (end, len) = parse_length(buf, "%").unwrap();
    assert_eq!(calc_total_length(buf, end, len, "%"), Ok(buf.len()));
    let buf = b"~2\r\n_\r\n#f\r\n+next\r\n";
    let (end, len) = parse_length(buf, "~").unwrap();
    assert_eq!(calc_total_length(buf, end, len, "~"), Ok(11));
    assert_eq!(calc_total_length(buf, end, len, "$"), Ok(4));
    assert_eq!(
        calc_total_length(buf, end, usize::MAX, "$"),
        Err(RespDecodeError::ParseIntError(IntErrorKind::PosOverflow))
    );
    assert_eq!(calc_total_length(b"*0\r\n", 2, 0, "*"), Ok(4));
    assert_eq!(
        calc_total_length(b"", 0, 1, "*"),
        Err(RespDecodeError::NotComplete)
    );
}

#[test]
fn conversions_into_frames() {
    let frame: RespFrame = "hello".into();
    assert_eq!(frame, RespFrame::SimpleString(SimpleString::new("hello")));
    let bytes: &[u8] = b"hi";
    let frame: RespFrame = bytes.into();
    assert_eq!(frame, RespFrame::BulkString(BulkString::new(b"hi")));
    let frame: RespFrame = b"hi".into();
    assert_eq!(frame.encode(), b"$2\r\nhi\r\n");
    let frame: RespFrame = SimpleError::new("bad").into();
    assert_eq!(frame, RespFrame::Error(SimpleError::new("bad")));
    let frame: RespFrame = RespDouble::new("+1.5").into();
    assert_eq!(frame.encode(), b",+1.5\r\n");
    let frame: RespFrame = RespSet::new(Vec::new()).into();
    assert_eq!(frame.encode(), b"~0\r\n");
    let frame: RespFrame = RespNull.into();
    assert_eq!(frame, RespFrame::Null(RespNull));
}

#[test]
fn values_are_reached_through_their_wrappers() {
    let text = SimpleString::new("hello");
    assert_eq!(text.len(), 5);
    assert_eq!(text.as_str(), "hello");
    let error = SimpleError::new("oops");
    assert!(error.starts_with("oo"));
    let array = RespArray::new(vec![RespFrame::Integer(1), RespFrame::Boolean(false)]);
    assert_eq!(array.len(), 2);
    assert_eq!(array[1], RespFrame::Boolean(false));
}

#[test]
fn each_type_encodes_as_its_frame() {
    assert_eq!(SimpleString::new("OK").encode(), b"+OK\r\n");
    assert_eq!(SimpleError::new("ERR x").encode(), b"-ERR x\r\n");
    assert_eq!((-5i64).encode(), b":-5\r\n");
    assert_eq!(true.encode(), b"#t\r\n");
    assert_eq!(false.encode(), b"#f\r\n");
    assert_eq!(RespNull.encode(), b"_\r\n");
    assert_eq!(RespNullArray.encode(), b"*-1\r\n");
    assert_eq!(RespNullBulkString.encode(), b"$-1\r\n");
    assert_eq!(BulkString::new("hello").encode(), b"$5\r\nhello\r\n");
    assert_eq!(RespDouble::new("-1e-9").encode(), b",-1e-9\r\n");
    assert_eq!(
        RespArray::new(vec![RespFrame::Null(RespNull)]).encode(),
        b"*1\r\n_\r\n"
    );
    assert_eq!(RespSet::new(vec![RespFrame::Integer(10)]).encode(), b"~1\r\n:+10\r\n");
    assert_eq!(RespMap::new().encode(), b"%0\r\n");
    let many: Vec<RespFrame> = (0..12).map(RespFrame::Integer).collect();
    let bytes = RespArray::new(many).encode();
    assert_eq!(&bytes[..5], b"*12\r\n");
    assert_eq!(bytes.len(), 5 + 10 * 5 + 2 * 6);
}
