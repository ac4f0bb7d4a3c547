use bytes::Buf;
use bytes::BufMut;
use bytes::BytesMut;
use resp_codec::calc_total_length;
use resp_codec::parse_length;
use resp_codec::BulkString;
use resp_codec::RespArray;
use resp_codec::RespDecode;
use resp_codec::RespDecodeError;
use resp_codec::RespDouble;
use resp_codec::RespFrame;
use resp_codec::RespMap;
use resp_codec::SimpleError;
use resp_codec::SimpleString;

#[test]
fn test_simple_string_decode() {
    let mut buf = BytesMut::new();
    buf.extend_from_slice(b"+OK\r\n");

    let frame = SimpleString::decode(&mut buf).unwrap();
    assert_eq!(frame, SimpleString::new("OK".to_string()));

    buf.extend_from_slice(b"+hello\r");
    let ret = SimpleString::decode(&mut buf);
    let _ = format!("except: SimpleString(+), got:{:?}", buf);
    assert_eq!(ret.unwrap_err(), RespDecodeError::NotComplete);

    buf.put_u8(b'\n');
    let frame = SimpleString::decode(&mut buf).unwrap();
    assert_eq!(frame, SimpleString::new("hello".to_string()));
}

#[test]
fn test_bulk_string_decode() {
    let mut buf = BytesMut::new();
    buf.extend_from_slice(b"$5\r\nhello\r\n");

    let frame = BulkString::decode(&mut buf).unwrap();
    assert_eq!(frame, BulkString::new(b"hello"));
}

#[test]
fn test_simple_error_decode() {
    let mut buf = BytesMut::new();
    buf.extend_from_slice(b"-Error message\r\n");

    let frame = SimpleError::decode(&mut buf).unwrap();
    assert_eq!(frame, SimpleError::new("Error message".to_string()));

    buf.extend_from_slice(b"-hello\r");
    let ret = SimpleError::decode(&mut buf);
    assert_eq!(ret.unwrap_err(), RespDecodeError::NotComplete);

    buf.put_u8(b'\n');
    let ret = SimpleError::decode(&mut buf).unwrap();
    assert_eq!(ret, SimpleError::new("hello".to_string()));
}

#[test]
fn test_integers_decode() {
    let mut buf = BytesMut::new();
    buf.extend_from_slice(b":123\r\n");

    let frame = i64::decode(&mut buf).unwrap();
    assert_eq!(frame, 123);

    buf.extend_from_slice(b":-456\r\n");
    let frame = i64::decode(&mut buf).unwrap();
    assert_eq!(frame, -456);

    buf.extend_from_slice(b":0\r\n");
    let frame = i64::decode(&mut buf).unwrap();
    assert_eq!(frame, 0);

    buf.extend_from_slice(b":1234567890123\r\n");
    let frame = i64::decode(&mut buf).unwrap();
    assert_eq!(frame, 1234567890123);
}

#[test]
fn test_bool_decode() {
    let mut buf = BytesMut::new();
    buf.extend_from_slice(b"#t\r\n");

    let frame = bool::decode(&mut buf).unwrap();
    assert!(frame);

    buf.extend_from_slice(b"#f\r\n");
    let frame = bool::decode(&mut buf).unwrap();
    assert!(!frame);

    buf.extend_from_slice(b"#true\r\n");
    let ret = bool::decode(&mut buf);
    assert_eq!(
        ret.unwrap_err(),
        RespDecodeError::InvalidFrameType("except: Bool, got:b\"#true\\r\\n\"".to_string())
    );

    // a failed decode leaves the bytes where they are
    buf.advance(buf.len());

    buf.extend_from_slice(b"#false\r\n");
    let frame = bool::decode(&mut buf);
    assert_eq!(
        frame.unwrap_err(),
        RespDecodeError::InvalidFrameType("except: Bool, got:b\"#false\\r\\n\"".to_string())
    );
}

#[test]
fn test_array_decode() {
    let mut buf = BytesMut::new();
    buf.extend_from_slice(b"*2\r\n$3\r\nset\r\n$5\r\nhello\r\n");

    let frame = RespArray::decode(&mut buf).unwrap();
    assert_eq!(
        frame,
        RespArray::new(vec![
            BulkString::new(b"set".to_vec()).into(),
            BulkString::new(b"hello".to_vec()).into(),
        ])
    );

    buf.extend_from_slice(b"*2\r\n$3\r\nset\r\n");
    let ret = RespArray::decode(&mut buf);
    assert_eq!(ret.unwrap_err(), RespDecodeError::NotComplete);

    buf.extend_from_slice(b"$5\r\nhello\r\n");
    let frame = RespArray::decode(&mut buf).unwrap();
    assert_eq!(frame, RespArray::new([b"set".into(), b"hello".into()]));
}

#[test]
fn test_double_decode() {
    let mut buf = BytesMut::new();
    buf.extend_from_slice(b",123.45\r\n");

    let frame = RespDouble::decode(&mut buf).unwrap();
    assert_eq!(frame.0.parse::<f64>().unwrap(), 123.45);

    buf.extend_from_slice(b",+1.23456e-9\r\n");
    let frame = RespDouble::decode(&mut buf).unwrap();
    assert_eq!(frame.0.parse::<f64>().unwrap(), 1.23456e-9);
    assert!(buf.is_empty());
}

#[test]
fn test_map_decode() {
    let mut buf = BytesMut::new();
    buf.extend_from_slice(b"%2\r\n+hello\r\n$5\r\nworld\r\n+foo\r\n$3\r\nbar\r\n");

    let frame = RespMap::decode(&mut buf).unwrap();
    let mut map = RespMap::new();
    map.insert(
        "hello".to_string(),
        BulkString::new(b"world".to_vec()).into(),
    );
    map.insert("foo".to_string(), BulkString::new(b"bar".to_vec()).into());
    assert_eq!(frame, map);
}

#[test]
fn dymmy_test() {
    let s = "+1.23456e-9";
    let f: f64 = s.parse().unwrap();
    assert_eq!(f, 1.23456e-9);

    // the decoder accepts the same literal
    let mut buf = BytesMut::from(&b",+1.23456e-9\r\n"[..]);
    let frame = RespFrame::decode(&mut buf).unwrap();
    assert_eq!(frame, RespFrame::Double(RespDouble::new(s)));
}

#[test]
fn test_calc_array_length() {
    let buf = b"*2\r\n$3\r\nset\r\n$5\r\nhello\r\n";
    let (end, len) = parse_length(buf, "*").unwrap();
    let total_len = calc_total_length(buf, end, len, "*").unwrap();

    assert_eq!(total_len, buf.len());

    let buf = b"*2\r\n$3\r\nset\r\n";
    let (end, len) = parse_length(buf, "*").unwrap();
    let ret = calc_total_length(buf, end, len, "*");
    assert_eq!(ret.unwrap_err(), RespDecodeError::NotComplete);
}
