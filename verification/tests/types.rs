use bytes::BytesMut;
use simple_redis::{
    calc_total_length, extract_fixed_data, extract_simple_frame_data, find_crlf, parse_length,
    BulkString, RespArray, RespDecode, RespDouble, RespError, RespFrame, RespNull,
    RespNullArray, RespNullBulkString, SimpleError, SimpleString,
};

fn number(d: &RespDouble) -> f64 {
    std::str::from_utf8(d.literal()).unwrap().parse().unwrap()
}

#[test]
fn array_test_array_decode() {
    let mut buf = BytesMut::from("*3\r\n$3\r\nget\r\n$5\r\nhello\r\n$5\r\nworld\r\n");
    let s = RespArray::decode(&mut buf).unwrap();
    assert_eq!(
        s,
        RespArray::new(vec![
            BulkString::new("get".as_bytes().to_vec()).into(),
            BulkString::new("hello".as_bytes().to_vec()).into(),
            BulkString::new("world".as_bytes().to_vec()).into(),
        ])
    );
}

// The null array is a frame of its own: as an array it has no count.
#[test]
fn array_test_null_array_decode() {
    let mut buf = BytesMut::from("*-1\r\n");
    assert_eq!(RespArray::decode(&mut buf), Err(RespError::ParseIntError));
    assert_eq!(&buf[..], b"*-1\r\n");
    let s = RespFrame::decode(&mut buf).unwrap();
    assert_eq!(s, RespFrame::NullArray(RespNullArray));
    let mut buf = BytesMut::from("*0\r\n");
    let s = RespArray::decode(&mut buf).unwrap();
    assert_eq!(s, RespArray::new(vec![]));
}

#[test]
fn bool_test_boolean_decode() {
    let mut buf = BytesMut::from("#t\r\n");
    let s = bool::decode(&mut buf).unwrap();
    assert!(s);
    let mut buf = BytesMut::from("#f\r\n");
    let s = bool::decode(&mut buf).unwrap();
    assert!(!s);
}

#[test]
fn bulk_string_test_bulk_string_decode() {
    let mut buf = BytesMut::from("$5\r\nhello\r\n");
    let s = BulkString::decode(&mut buf).unwrap();
    assert_eq!(s, BulkString::new("hello".as_bytes().to_vec()));
}

// The null bulk string is a frame of its own: as a bulk string it has no
// length.
#[test]
fn bulk_string_test_null_bulk_string_decode() {
    let mut buf = BytesMut::from("$-1\r\n");
    assert_eq!(BulkString::decode(&mut buf), Err(RespError::ParseIntError));
    assert_eq!(&buf[..], b"$-1\r\n");
    let s = RespFrame::decode(&mut buf).unwrap();
    assert_eq!(s, RespFrame::NullBulkString(RespNullBulkString));
    let mut buf = BytesMut::from("$0\r\n\r\n");
    let s = BulkString::decode(&mut buf).unwrap();
    assert_eq!(s, BulkString::new("".into()));
}

#[test]
fn double_test_double_decode() {
    let mut buf = BytesMut::from(",+100.123\r\n");
    let s = RespDouble::decode(&mut buf).unwrap();
    assert_eq!(number(&s), 100.123);
    let mut buf = BytesMut::from(",+1.234e+9\r\n");
    let s = RespDouble::decode(&mut buf).unwrap();
    assert_eq!(number(&s), 1.234e+9);
    let mut buf = BytesMut::from(",-1.234e-9\r\n");
    let s = RespDouble::decode(&mut buf).unwrap();
    assert_eq!(number(&s), -1.234e-9);
}

#[test]
fn integer_test_integer_decode() {
    let mut buf = BytesMut::from(":100\r\n");
    let s = i64::decode(&mut buf).unwrap();
    assert_eq!(s, 100);
}

#[test]
fn null_test_null_decode() {
    let mut buf = BytesMut::from("_\r\n");
    let s = RespNull::decode(&mut buf).unwrap();
    assert_eq!(s, RespNull);
}

#[test]
fn simple_error_test_simple_error_decode() {
    let mut buf = BytesMut::from("-Error message\r\n");
    let s = SimpleError::decode(&mut buf).unwrap();
    assert_eq!(s, SimpleError::new("Error message"));
}

#[test]
fn simple_string_test_simple_string_decode() {
    let mut buf = BytesMut::from("+OK\r\n");
    let s = SimpleString::decode(&mut buf).unwrap();
    assert_eq!(s, SimpleString::new("OK"));
}

#[test]
fn util_test_extract_fixed_data() {
    let mut buf = BytesMut::from("+OK\r\n");
    let res = extract_fixed_data(&mut buf, "+OK\r\n", "SimpleString");
    assert!(res.is_ok());
    assert_eq!(buf.len(), 0);

    let mut buf = BytesMut::from("-Error\r\n");
    let res = extract_fixed_data(&mut buf, "-Error\r\n", "SimpleError");
    assert!(res.is_ok());
    assert_eq!(buf.len(), 0);

    let mut buf = BytesMut::from("_\r\n");
    let res = extract_fixed_data(&mut buf, "_\r\n\r\n", "Null");
    assert!(res.is_err());
    assert_eq!(res.unwrap_err(), RespError::NotComplete);
}

#[test]
fn util_test_parse_length() {
    let buf = BytesMut::from("$6\r\nhello1\r\n");
    let (end, length) = parse_length(&buf, "$").unwrap();
    assert_eq!(end, 2);
    assert_eq!(length, 6);

    let buf = BytesMut::from("+OK\r\n");
    let may_error = parse_length(&buf, "+");
    assert!(may_error.is_err());
}

#[test]
fn util_test_calc_total_length() {
    let buf = b"*2\r\n$3\r\nget\r\n$5\r\nhello\r\n";
    let (end, length) = parse_length(buf, "*").unwrap();
    let total = calc_total_length(buf, end, length, "*").unwrap();
    assert_eq!(total, buf.len());

    let buf = b"*2\r\n$3\r\nget\r\n";
    let (end, length) = parse_length(buf, "*").unwrap();
    let res = calc_total_length(buf, end, length, "*");
    assert_eq!(res.unwrap_err(), RespError::NotComplete);
}

#[test]
fn find_crlf_counts_from_one() {
    let buf = b"a\r\nbc\r\n\r\nd";
    assert_eq!(find_crlf(buf, 1), Some(1));
    assert_eq!(find_crlf(buf, 2), Some(5));
    assert_eq!(find_crlf(buf, 3), Some(7));
    assert_eq!(find_crlf(buf, 4), None);
    assert_eq!(find_crlf(buf, 0), None);
    assert_eq!(find_crlf(b"", 1), None);
    assert_eq!(find_crlf(b"\r", 1), None);
    assert_eq!(find_crlf(b"\n\r", 1), None);
}

#[test]
fn extract_simple_frame_data_finds_the_end_of_the_line() {
    assert_eq!(extract_simple_frame_data(b"+OK\r\n", "+"), Ok(3));
    assert_eq!(extract_simple_frame_data(b"+\r\n", "+"), Ok(1));
    assert_eq!(extract_simple_frame_data(b"+O", "+"), Err(RespError::NotComplete));
    assert_eq!(extract_simple_frame_data(b"+OK\r", "+"), Err(RespError::NotComplete));
    assert_eq!(extract_simple_frame_data(b"-OK\r\n", "+"), Err(RespError::InvalidFrameType));
    assert_eq!(extract_simple_frame_data(b"+a\r\nb\r\n", "+"), Ok(2));
}

#[test]
fn extract_fixed_data_leaves_the_buffer_on_a_mismatch() {
    let mut buf = BytesMut::from("#x\r\nrest");
    let res = extract_fixed_data(&mut buf, "#t\r\n", "Bool");
    assert_eq!(res, Err(RespError::InvalidFrameType));
    assert_eq!(&buf[..], b"#x\r\nrest");
    let mut buf = BytesMut::from("#t\r\nrest");
    assert_eq!(extract_fixed_data(&mut buf, "#t\r\n", "Bool"), Ok(()));
    assert_eq!(&buf[..], b"rest");
}

#[test]
fn parse_length_reads_the_count() {
    assert_eq!(parse_length(b"*12\r\n", "*"), Ok((3, 12)));
    assert_eq!(parse_length(b"*+3\r\n", "*"), Ok((3, 3)));
    assert_eq!(parse_length(b"*007\r\n", "*"), Ok((4, 7)));
    assert_eq!(parse_length(b"*\r\n", "*"), Err(RespError::ParseIntError));
    assert_eq!(parse_length(b"*-1\r\n", "*"), Err(RespError::ParseIntError));
    assert_eq!(parse_length(b"*1x\r\n", "*"), Err(RespError::ParseIntError));
    assert_eq!(
        parse_length(b"*99999999999999999999999999\r\n", "*"),
        Err(RespError::ParseIntError)
    );
    assert_eq!(parse_length(b"*1", "*"), Err(RespError::NotComplete));
    assert_eq!(parse_length(b"$1\r\n", "*"), Err(RespError::InvalidFrameType));
}

#[test]
fn calc_total_length_by_prefix() {
    let buf = b"%1\r\n+k\r\n:1\r\n";
    assert_eq!(calc_total_length(buf, 2, 1, "%"), Ok(buf.len()));
    let buf = b"~2\r\n#t\r\n_\r\nrest";
    assert_eq!(calc_total_length(buf, 2, 2, "~"), Ok(11));
    assert_eq!(calc_total_length(b"$5\r\nhello\r\n", 2, 5, "$"), Ok(7));
    assert_eq!(calc_total_length(b"*1\r\n", 2, 1, "*"), Err(RespError::NotComplete));
    assert_eq!(calc_total_length(b"*1\r\n$5\r\nhe", 2, 1, "*"), Err(RespError::NotComplete));
    assert_eq!(calc_total_length(b"*1\r\n?x\r\n", 2, 1, "*"), Err(RespError::InvalidFrameType));
    assert_eq!(calc_total_length(b"*1", 5, 1, "*"), Err(RespError::NotComplete));
    assert_eq!(calc_total_length(b"%1\r\n:1\r\n:1\r\n", 2, 1, "%"), Err(RespError::InvalidFrameType));
}

#[test]
fn expect_length_measures_without_reading() {
    assert_eq!(RespFrame::expect_length(b"$5\r\nhe"), Ok(11));
    assert_eq!(RespFrame::expect_length(b"$-1\r\n"), Ok(5));
    assert_eq!(RespFrame::expect_length(b"*-1\r\n"), Ok(5));
    assert_eq!(RespFrame::expect_length(b"*2\r\n:1\r\n:2\r\nrest"), Ok(12));
    assert_eq!(RespFrame::expect_length(b"+OK\r\nrest"), Ok(5));
    assert_eq!(RespFrame::expect_length(b"#"), Ok(4));
    assert_eq!(RespFrame::expect_length(b"_"), Ok(3));
    assert_eq!(RespFrame::expect_length(b""), Err(RespError::NotComplete));
    assert_eq!(RespFrame::expect_length(b"?"), Err(RespError::InvalidFrameType));
    assert_eq!(
        RespFrame::expect_length(b"$18446744073709551615\r\n"),
        Err(RespError::NotComplete)
    );
    assert_eq!(BulkString::expect_length(b"$3\r\n"), Ok(9));
    assert_eq!(SimpleString::expect_length(b"+OK\r\n"), Ok(5));
    assert_eq!(RespNullArray::expect_length(b""), Ok(5));
    assert_eq!(RespNullBulkString::expect_length(b""), Ok(5));
    assert_eq!(RespNull::expect_length(b""), Ok(3));
    assert_eq!(bool::expect_length(b""), Ok(4));
}

#[test]
fn double_literals() {
    for ok in [
        "1", "+1", "-1", "1.", ".5", "1.5", "1e5", "1E5", "1e+5", "1.5e-5", "inf", "-inf",
        "+Infinity", "nan", "NaN", "-nan", "007", "0.000",
    ] {
        assert!(RespDouble::new(ok.as_bytes()).is_some(), "{}", ok);
        assert_eq!(ok.parse::<f64>().is_ok(), true, "{}", ok);
    }
    for bad in [
        "", "+", "-", ".", "e5", "1e", "1e+", "1.5.5", "1 ", " 1", "1x", "infi", "na", "--1",
        "1e5.5", "+.", "1_000", "0x10",
    ] {
        assert!(RespDouble::new(bad.as_bytes()).is_none(), "{}", bad);
        assert_eq!(bad.parse::<f64>().is_ok(), false, "{}", bad);
    }
    assert_eq!(RespDouble::new(b"1.5").unwrap().literal(), b"+1.5");
    assert_eq!(RespDouble::new(b"-1.5").unwrap().literal(), b"-1.5");
    assert_eq!(RespDouble::new(b"+1.5").unwrap().literal(), b"+1.5");
}
