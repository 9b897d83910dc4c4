use simple_redis::{
    BulkString, RespArray, RespDouble, RespEncode, RespFrame, RespMap, RespNull, RespNullArray,
    RespNullBulkString, RespSet, SimpleError, SimpleString,
};

// The number as the caller of the library writes it: scientific notation
// outside of 1e-8..1e8, the sign always there.
fn double(x: f64) -> RespFrame {
    let text = if x.abs() > 1e+8 || x.abs() < 1e-8 {
        format!("{:+e}", x)
    } else {
        let sign = if x < 0.0 { "" } else { "+" };
        format!("{}{}", sign, x)
    };
    RespDouble::new(text.as_bytes()).unwrap().into()
}

#[test]
fn test_simple_string() {
    let s: RespFrame = SimpleString::new("OK").into();
    assert_eq!(s.encode(), b"+OK\r\n");
}

#[test]
fn test_simple_error() {
    let s: RespFrame = SimpleError::new("Error Message").into();
    assert_eq!(s.encode(), b"-Error Message\r\n");
}

#[test]
fn test_integer() {
    let s: RespFrame = 100.into();
    assert_eq!(s.encode(), b":+100\r\n");
    let s: RespFrame = (-100).into();
    assert_eq!(s.encode(), b":-100\r\n");
}

#[test]
fn test_bulk_string() {
    let s: RespFrame = BulkString::new("hello".as_bytes().to_vec()).into();
    assert_eq!(s.encode(), b"$5\r\nhello\r\n");
}

#[test]
fn test_null_bulk_string() {
    let s: RespFrame = RespNullBulkString.into();
    assert_eq!(s.encode(), b"$-1\r\n");
}

#[test]
fn test_array() {
    let s: RespFrame = RespArray::new(vec![
        BulkString::new("get".into()).into(),
        BulkString::new("hello".into()).into(),
        BulkString::new("world".into()).into(),
    ])
    .into();
    assert_eq!(
        s.encode(),
        b"*3\r\n$3\r\nget\r\n$5\r\nhello\r\n$5\r\nworld\r\n"
    );
}

#[test]
fn test_null_array() {
    let s: RespFrame = RespNullArray.into();
    assert_eq!(s.encode(), b"*-1\r\n");
}

#[test]
fn test_null() {
    let s: RespFrame = RespNull.into();
    assert_eq!(s.encode(), b"_\r\n");
}

#[test]
fn test_boolean() {
    let s: RespFrame = true.into();
    assert_eq!(s.encode(), b"#t\r\n");
    let s: RespFrame = false.into();
    assert_eq!(s.encode(), b"#f\r\n");
}

#[test]
fn test_double() {
    let s: RespFrame = double(123.456);
    assert_eq!(s.encode(), b",+123.456\r\n");
    let s: RespFrame = double(-123.456);
    assert_eq!(s.encode(), b",-123.456\r\n");
    let s: RespFrame = double(1.23456e+8);
    assert_eq!(s.encode(), b",+1.23456e8\r\n");
    let s: RespFrame = double(-1.23456e-9);
    assert_eq!(s.encode(), b",-1.23456e-9\r\n");
}

#[test]
fn test_map_encode() {
    let mut map = RespMap::new();
    map.insert(
        "hello".to_string(),
        BulkString::new("world".to_string().into()).into(),
    );
    map.insert("foo".to_string(), double(-123456.789));

    let frame: RespFrame = map.into();
    assert_eq!(
        &frame.encode(),
        b"%2\r\n+foo\r\n,-123456.789\r\n+hello\r\n$5\r\nworld\r\n"
    );
}

#[test]
fn test_set_encode() {
    let frame: RespFrame = RespSet::new(vec![
        RespArray::new(vec![1234.into(), true.into()]).into(),
        BulkString::new("world".to_string().into()).into(),
    ])
    .into();
    assert_eq!(
        frame.encode(),
        b"~2\r\n*2\r\n:+1234\r\n#t\r\n$5\r\nworld\r\n"
    );
}

#[test]
fn test_simple_string_encode() {
    let s: RespFrame = SimpleString::new("OK").into();
    assert_eq!(s.encode(), b"+OK\r\n");
}

#[test]
fn test_simple_error_encode() {
    let s: RespFrame = SimpleError::new("Error Message").into();
    assert_eq!(s.encode(), b"-Error Message\r\n");
}

#[test]
fn test_integer_encode() {
    let s: RespFrame = 100.into();
    assert_eq!(s.encode(), b":+100\r\n");
    let s: RespFrame = (-100).into();
    assert_eq!(s.encode(), b":-100\r\n");
}

#[test]
fn test_boolean_encode() {
    let s: RespFrame = true.into();
    assert_eq!(s.encode(), b"#t\r\n");
    let s: RespFrame = false.into();
    assert_eq!(s.encode(), b"#f\r\n");
}

#[test]
fn test_null_encode() {
    let s: RespFrame = RespNull.into();
    assert_eq!(s.encode(), b"_\r\n");
}

#[test]
fn test_double_encode() {
    let s: RespFrame = double(123.456);
    assert_eq!(s.encode(), b",+123.456\r\n");
    let s: RespFrame = double(-123.456);
    assert_eq!(s.encode(), b",-123.456\r\n");
    let s: RespFrame = double(1.23456e+8);
    assert_eq!(s.encode(), b",+1.23456e8\r\n");
    let s: RespFrame = double(-1.23456e-9);
    assert_eq!(s.encode(), b",-1.23456e-9\r\n");
}

#[test]
fn test_bulk_string_encode() {
    let s: RespFrame = BulkString::new("hello".as_bytes().to_vec()).into();
    assert_eq!(s.encode(), b"$5\r\nhello\r\n");
}

#[test]
fn test_array_encode() {
    let s: RespFrame = RespArray::new(vec![
        BulkString::new("get".into()).into(),
        BulkString::new("hello".into()).into(),
        BulkString::new("world".into()).into(),
    ])
    .into();
    assert_eq!(
        s.encode(),
        b"*3\r\n$3\r\nget\r\n$5\r\nhello\r\n$5\r\nworld\r\n"
    );
}

// The empty bulk string and the empty array are not the null forms: each
// has an encoding of its own.
#[test]
fn test_null_bulk_string_encode() {
    let s: RespFrame = BulkString::new("".into()).into();
    assert_eq!(s.encode(), b"$0\r\n\r\n");
    let s: RespFrame = RespNullBulkString.into();
    assert_eq!(s.encode(), b"$-1\r\n");
}

#[test]
fn test_null_array_encode() {
    let s: RespFrame = RespArray::new(Vec::new()).into();
    assert_eq!(s.encode(), b"*0\r\n");
    let s: RespFrame = RespNullArray.into();
    assert_eq!(s.encode(), b"*-1\r\n");
}

#[test]
fn encode_each_type_on_its_own() {
    assert_eq!(SimpleString::new("OK").encode(), b"+OK\r\n");
    assert_eq!(SimpleError::new("ERR x").encode(), b"-ERR x\r\n");
    assert_eq!(0i64.encode(), b":+0\r\n");
    assert_eq!(i64::MIN.encode(), b":-9223372036854775808\r\n");
    assert_eq!(i64::MAX.encode(), b":+9223372036854775807\r\n");
    assert_eq!(BulkString::new(vec![0, 13, 10, 255]).encode(), b"$4\r\n\x00\r\n\xff\r\n");
    assert_eq!(RespNullBulkString.encode(), b"$-1\r\n");
    assert_eq!(RespNullArray.encode(), b"*-1\r\n");
    assert_eq!(RespNull.encode(), b"_\r\n");
    assert_eq!(true.encode(), b"#t\r\n");
    assert_eq!(RespDouble::new(b"1.5").unwrap().encode(), b",+1.5\r\n");
    assert_eq!(RespArray::new(vec![]).encode(), b"*0\r\n");
    assert_eq!(RespSet::new(vec![RespFrame::Null(RespNull)]).encode(), b"~1\r\n_\r\n");
    assert_eq!(RespMap::new().encode(), b"%0\r\n");
}

#[test]
fn encode_counts_with_several_digits() {
    let frames: Vec<RespFrame> = (0..12).map(|i| RespFrame::Integer(i)).collect();
    let out = RespArray::new(frames).encode();
    assert!(out.starts_with(b"*12\r\n:+0\r\n:+1\r\n"));
    assert!(out.ends_with(b":+11\r\n"));
    let bulk = BulkString::new(vec![b'y'; 100]).encode();
    assert!(bulk.starts_with(b"$100\r\nyyy"));
    assert_eq!(bulk.len(), 6 + 100 + 2);
}

#[test]
fn map_entries_come_out_in_key_order() {
    let keys = ["pear", "apple", "fig", "banana", "apple2", ""];
    let mut forward = RespMap::new();
    for (i, k) in keys.iter().enumerate() {
        forward.insert(k.to_string(), RespFrame::Integer(i as i64));
    }
    let mut backward = RespMap::new();
    for (i, k) in keys.iter().enumerate().rev() {
        backward.insert(k.to_string(), RespFrame::Integer(i as i64));
    }
    assert_eq!(forward, backward);
    let listed: Vec<String> = forward.entries().iter().map(|e| e.0.clone()).collect();
    assert_eq!(listed, vec!["", "apple", "apple2", "banana", "fig", "pear"]);
    assert_eq!(
        forward.encode(),
        b"%6\r\n+\r\n:+5\r\n+apple\r\n:+1\r\n+apple2\r\n:+4\r\n+banana\r\n:+3\r\n+fig\r\n:+2\r\n+pear\r\n:+0\r\n"
    );
}

#[test]
fn map_insert_replaces_the_value_of_a_key() {
    let mut map = RespMap::new();
    map.insert("k".to_string(), RespFrame::Integer(1));
    map.insert("k".to_string(), RespFrame::Integer(2));
    assert_eq!(map.len(), 1);
    assert_eq!(map.get("k"), Some(&RespFrame::Integer(2)));
    assert_eq!(map.get("other"), None);
}

#[test]
fn encode_is_the_same_every_time() {
    let frame: RespFrame = RespArray::new(vec![
        SimpleString::new("a").into(),
        BulkString::new(b"b".to_vec()).into(),
    ])
    .into();
    assert_eq!(frame.clone().encode(), frame.encode());
}
