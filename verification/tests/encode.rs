use resp_codec::double_notation;
use resp_codec::with_explicit_sign;
use resp_codec::BulkString;
use resp_codec::Notation;
use resp_codec::RespArray;
use resp_codec::RespDouble;
use resp_codec::RespEncode;
use resp_codec::RespFrame;
use resp_codec::RespMap;
use resp_codec::RespNull;
use resp_codec::RespNullArray;
use resp_codec::RespNullBulkString;
use resp_codec::RespSet;
use resp_codec::SimpleError;
use resp_codec::SimpleString;

/// The frame of a double: the library chooses the notation and the sign, std
/// writes the digits.
fn double_frame(v: f64) -> RespFrame {
    let text = match double_notation(v.to_bits()) {
        Notation::Scientific => format!("{:+e}", v),
        Notation::Fixed => with_explicit_sign(&format!("{}", v)),
    };
    RespDouble::new(text).into()
}

#[test]
fn test_simple_string_encode() {
    let frame: RespFrame = SimpleString::new("hello").into();
    assert_eq!(frame.encode(), b"+hello\r\n");
}

#[test]
fn test_simple_error_encode() {
    let frame: RespFrame = SimpleError::new("error message").into();
    assert_eq!(frame.encode(), b"-error message\r\n");
}

#[test]
fn test_simple_integer_encode() {
    let frame: RespFrame = 123.into();
    assert_eq!(frame.encode(), b":+123\r\n");

    let frame: RespFrame = (-123).into();
    assert_eq!(frame.encode(), b":-123\r\n");
}

#[test]
fn test_bulk_string_encode() {
    let frame: RespFrame = BulkString("hello".as_bytes().to_vec()).into();
    assert_eq!(frame.encode(), b"$5\r\nhello\r\n");
}

#[test]
fn test_null_bulk_string_encode() {
    let frame: RespFrame = RespNullBulkString.into();
    assert_eq!(frame.encode(), b"$-1\r\n");
}

#[test]
fn test_array_encode() {
    let frame: RespFrame = RespArray::new(vec![
        BulkString::new("set").into(),
        BulkString::new("hello").into(),
        BulkString::new("world").into(),
    ])
    .into();
    assert_eq!(
        frame.encode(),
        b"*3\r\n$3\r\nset\r\n$5\r\nhello\r\n$5\r\nworld\r\n"
    );
}

#[test]
fn test_null_array_encode() {
    let frame: RespFrame = RespNullArray.into();
    assert_eq!(frame.encode(), b"*-1\r\n");
}

#[test]
fn test_null_encode() {
    let frame: RespFrame = RespNull.into();
    assert_eq!(frame.encode(), b"_\r\n");
}

#[test]
fn test_bool_encode() {
    let frame: RespFrame = true.into();
    assert_eq!(frame.encode(), b"#t\r\n");

    let frame: RespFrame = false.into();
    assert_eq!(frame.encode(), b"#f\r\n");
}

#[test]
fn test_double_encode() {
    let frame: RespFrame = double_frame(123.456);
    assert_eq!(frame.encode(), b",+123.456\r\n");

    let frame: RespFrame = double_frame(-123.456);
    assert_eq!(frame.encode(), b",-123.456\r\n");

    let frame: RespFrame = double_frame(1.23456e+8);
    assert_eq!(frame.encode(), b",+1.23456e8\r\n");
    let frame: RespFrame = double_frame(-1.23456e-8);
    assert_eq!(frame.encode(), b",-1.23456e-8\r\n");
}

#[test]
fn test_map_encode() {
    let mut map = RespMap::new();
    map.insert(
        "hello".to_string(),
        BulkString::new("world".to_string()).into(),
    );
    map.insert("foo".to_string(), double_frame(-123456.789));

    let frame: RespFrame = map.into();
    assert_eq!(
        frame.encode(),
        b"%2\r\n+foo\r\n,-123456.789\r\n+hello\r\n$5\r\nworld\r\n"
    );
}

#[test]
fn test_set_encode() {
    let frame: RespFrame = RespSet::new([
        RespArray::new([1234.into(), true.into()]).into(),
        BulkString::new("world".to_string()).into(),
    ])
    .into();
    assert_eq!(
        frame.encode(),
        b"~2\r\n*2\r\n:+1234\r\n#t\r\n$5\r\nworld\r\n"
    );
}
