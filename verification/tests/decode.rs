use bytes::BytesMut;
use simple_redis::{
    calc_total_length, extract_fixed_data, parse_length, BulkString, RespArray, RespDecode,
    RespDouble, RespError, RespFrame, RespMap, RespNull, RespNullArray, RespNullBulkString,
    RespSet, SimpleError, SimpleString,
};

fn number(d: &RespDouble) -> f64 {
    std::str::from_utf8(d.literal()).unwrap().parse().unwrap()
}

#[test]
fn decode_test_simple_string_decode() {
    let mut buf = BytesMut::from("+OK\r\n");
    let s = SimpleString::decode(&mut buf).unwrap();
    assert_eq!(s, SimpleString::new("OK"));
}

#[test]
fn decode_test_simple_error_decode() {
    let mut buf = BytesMut::from("-Error message\r\n");
    let s = SimpleError::decode(&mut buf).unwrap();
    assert_eq!(s, SimpleError::new("Error message"));
}

#[test]
fn decode_test_integer_decode() {
    let mut buf = BytesMut::from(":100\r\n");
    let s = i64::decode(&mut buf).unwrap();
    assert_eq!(s, 100);
}

#[test]
fn decode_test_bulk_string_decode() {
    let mut buf = BytesMut::from("$5\r\nhello\r\n");
    let s = BulkString::decode(&mut buf).unwrap();
    assert_eq!(s, BulkString::new("hello".as_bytes().to_vec()));
}

#[test]
fn decode_test_null_bulk_string_decode() {
    let mut buf = BytesMut::from("$-1\r\n");
    let s = RespNullBulkString::decode(&mut buf).unwrap();
    assert_eq!(s, RespNullBulkString);
}

#[test]
fn decode_test_array_decode() {
    let mut buf = BytesMut::from("*3\r\n$3\r\nget\r\n$5\r\nhello\r\n$5\r\nworld\r\n");
    let s = RespArray::decode(&mut buf).unwrap();
    assert_eq!(
        s,
        RespArray::new(vec![
            BulkString::new("get".as_bytes().to_vec()).into(),
            BulkString::new("hello".as_bytes().to_vec()).into(),
            BulkString::new("world".as_bytes().to_vec()).into(),
        ])
    );
}

#[test]
fn decode_test_null_array_decode() {
    let mut buf = BytesMut::from("*-1\r\n");
    let s = RespNullArray::decode(&mut buf).unwrap();
    assert_eq!(s, RespNullArray);
}

#[test]
fn decode_test_null_decode() {
    let mut buf = BytesMut::from("_\r\n");
    let s = RespNull::decode(&mut buf).unwrap();
    assert_eq!(s, RespNull);
}

#[test]
fn decode_test_boolean_decode() {
    let mut buf = BytesMut::from("#t\r\n");
    let s = bool::decode(&mut buf).unwrap();
    assert!(s);
    let mut buf = BytesMut::from("#f\r\n");
    let s = bool::decode(&mut buf).unwrap();
    assert!(!s);
}

#[test]
fn decode_test_double_decode() {
    let mut buf = BytesMut::from(",+100.123\r\n");
    let s = RespDouble::decode(&mut buf).unwrap();
    assert_eq!(number(&s), 100.123);
    let mut buf = BytesMut::from(",+1.234e+9\r\n");
    let s = RespDouble::decode(&mut buf).unwrap();
    assert_eq!(number(&s), 1.234e+9);
    let mut buf = BytesMut::from(",-1.234e-9\r\n");
    let s = RespDouble::decode(&mut buf).unwrap();
    assert_eq!(number(&s), -1.234e-9);
}

#[test]
fn test_map_decode() {
    let mut buf = BytesMut::new();
    buf.extend_from_slice(b"%2\r\n+hello\r\n$5\r\nworld\r\n+foo\r\n$3\r\nbar\r\n");

    let frame = RespMap::decode(&mut buf).unwrap();
    let mut map = RespMap::new();
    map.insert(
        "hello".to_string(),
        BulkString::new(b"world".to_vec()).into(),
    );
    map.insert("foo".to_string(), BulkString::new(b"bar".to_vec()).into());
    assert_eq!(frame, map);
}

#[test]
fn test_set_decode() {
    let mut buf = BytesMut::new();
    buf.extend_from_slice(b"~2\r\n$3\r\nset\r\n$5\r\nhello\r\n");

    let frame = RespSet::decode(&mut buf).unwrap();
    assert_eq!(
        frame,
        RespSet::new(vec![
            BulkString::new(b"set".to_vec()).into(),
            BulkString::new(b"hello".to_vec()).into()
        ])
    );
}

#[test]
fn decode_test_extract_fixed_data() {
    let mut buf = BytesMut::from("+OK\r\n");
    let res = extract_fixed_data(&mut buf, "+OK\r\n", "SimpleString");
    assert!(res.is_ok());
    assert_eq!(buf.len(), 0);

    let mut buf = BytesMut::from("-Error\r\n");
    let res = extract_fixed_data(&mut buf, "-Error\r\n", "SimpleError");
    assert!(res.is_ok());
    assert_eq!(buf.len(), 0);

    let mut buf = BytesMut::from("_\r\n");
    let res = extract_fixed_data(&mut buf, "_\r\n\r\n", "Null");
    assert!(res.is_err());
    assert_eq!(res.unwrap_err(), RespError::NotComplete);
}

#[test]
fn decode_test_parse_length() {
    let buf = BytesMut::from("$6\r\nhello1\r\n");
    let (end, length) = parse_length(&buf, "$").unwrap();
    assert_eq!(end, 2);
    assert_eq!(length, 6);

    let buf = BytesMut::from("+OK\r\n");
    let may_error = parse_length(&buf, "+");
    assert!(may_error.is_err());
}

#[test]
fn decode_test_calc_total_length() {
    let buf = b"*2\r\n$3\r\nget\r\n$5\r\nhello\r\n";
    let (end, length) = parse_length(buf, "*").unwrap();
    let total = calc_total_length(buf, end, length, "*").unwrap();
    assert_eq!(total, buf.len());

    let buf = b"*2\r\n$3\r\nget\r\n";
    let (end, length) = parse_length(buf, "*").unwrap();
    let res = calc_total_length(buf, end, length, "*");
    assert_eq!(res.unwrap_err(), RespError::NotComplete);
}

#[test]
fn frame_decode_leaves_the_rest() {
    let mut buf = BytesMut::from("+OK\r\n:12\r\n");
    let first = RespFrame::decode(&mut buf).unwrap();
    assert_eq!(first, RespFrame::SimpleString(SimpleString::new("OK")));
    assert_eq!(&buf[..], b":12\r\n");
    let second = RespFrame::decode(&mut buf).unwrap();
    assert_eq!(second, RespFrame::Integer(12));
    assert_eq!(buf.len(), 0);
}
