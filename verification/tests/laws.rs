use bytes::BytesMut;
use simple_redis::{
    is_wire_safe, BulkString, RespArray, RespDecode, RespDouble, RespEncode, RespError, RespFrame, RespMap,
    RespNull, RespNullArray, RespNullBulkString, RespSet, SimpleError, SimpleString,
};

fn bulk(s: &str) -> RespFrame {
    BulkString::new(s.as_bytes().to_vec()).into()
}

fn samples() -> Vec<RespFrame> {
    let mut map = RespMap::new();
    map.insert("b".to_string(), RespFrame::Integer(2));
    map.insert("a".to_string(), RespArray::new(vec![bulk("x"), RespNull.into()]).into());
    map.insert("".to_string(), RespNullArray.into());
    let mut inner = RespMap::new();
    inner.insert("k\u{e9}y".to_string(), true.into());
    vec![
        SimpleString::new("OK").into(),
        SimpleString::new("").into(),
        SimpleString::new("h\u{e9}llo \r w\n").into(),
        SimpleError::new("ERR something").into(),
        RespFrame::Integer(0),
        RespFrame::Integer(-1),
        RespFrame::Integer(i64::MAX),
        RespFrame::Integer(i64::MIN),
        bulk(""),
        bulk("hello"),
        BulkString::new(vec![13, 10, 0, 255, 13, 10]).into(),
        RespNullBulkString.into(),
        RespArray::new(vec![]).into(),
        RespArray::new(vec![bulk("get"), bulk("hello")]).into(),
        RespArray::new(vec![
            RespArray::new(vec![RespArray::new(vec![]).into(), RespNullArray.into()]).into(),
            RespNullBulkString.into(),
            false.into(),
        ])
        .into(),
        RespNullArray.into(),
        RespNull.into(),
        true.into(),
        false.into(),
        RespDouble::new(b"+1.5e-7").unwrap().into(),
        RespDouble::new(b"-inf").unwrap().into(),
        map.into(),
        RespSet::new(vec![RespFrame::Integer(1), inner.into(), RespSet::new(vec![]).into()]).into(),
    ]
}

#[test]
fn round_trip() {
    for frame in samples() {
        assert!(is_wire_safe(&frame));
        let bytes = frame.clone().encode();
        let mut buf = BytesMut::from(&bytes[..]);
        let back = RespFrame::decode(&mut buf);
        assert_eq!(back, Ok(frame.clone()), "{:?}", frame);
        assert_eq!(buf.len(), 0);
        assert_eq!(RespFrame::expect_length(&bytes), Ok(bytes.len()));
        let mut buf = BytesMut::from(&bytes[..]);
        buf.extend_from_slice(b"+rest\r\n");
        assert_eq!(RespFrame::decode(&mut buf), Ok(frame));
        assert_eq!(&buf[..], b"+rest\r\n");
    }
}

#[test]
fn incremental_feed() {
    for frame in samples() {
        let bytes = frame.clone().encode();
        for split in 0..bytes.len() {
            let mut buf = BytesMut::from(&bytes[..split]);
            assert_eq!(
                RespFrame::decode(&mut buf),
                Err(RespError::NotComplete),
                "{:?} at {}",
                frame,
                split
            );
            assert_eq!(&buf[..], &bytes[..split]);
            buf.extend_from_slice(&bytes[split..]);
            assert_eq!(RespFrame::decode(&mut buf), Ok(frame.clone()));
            assert_eq!(buf.len(), 0);
        }
    }
}

#[test]
fn incremental_feed_in_three_pieces() {
    let bytes = b"*2\r\n$3\r\nget\r\n$5\r\nhello\r\n";
    for a in 0..bytes.len() {
        for b in a..bytes.len() {
            let mut buf = BytesMut::from(&bytes[..a]);
            assert_eq!(RespFrame::decode(&mut buf), Err(RespError::NotComplete));
            buf.extend_from_slice(&bytes[a..b]);
            assert_eq!(RespFrame::decode(&mut buf), Err(RespError::NotComplete));
            buf.extend_from_slice(&bytes[b..]);
            assert_eq!(
                RespFrame::decode(&mut buf),
                Ok(RespArray::new(vec![bulk("get"), bulk("hello")]).into())
            );
        }
    }
}

#[test]
fn nested_composites() {
    let bytes = b"*2\r\n$3\r\nget\r\n$5\r\nhello\r\n";
    let mut buf = BytesMut::from(&bytes[..]);
    let frame = RespFrame::decode(&mut buf).unwrap();
    assert_eq!(frame, RespArray::new(vec![bulk("get"), bulk("hello")]).into());
    assert_eq!(frame.encode(), bytes);
}

#[test]
fn text_with_a_line_terminator_is_cut_short() {
    let frame: RespFrame = SimpleString::new("a\r\nb").into();
    assert!(!is_wire_safe(&frame));
    assert!(!is_wire_safe(&RespArray::new(vec![RespNull.into(), frame.clone()]).into()));
    assert!(!is_wire_safe(&SimpleError::new("\r\n").into()));
    let mut map = RespMap::new();
    map.insert("a\r\n".to_string(), RespNull.into());
    assert!(!is_wire_safe(&map.into()));
    let mut map = RespMap::new();
    map.insert("a".to_string(), RespSet::new(vec![frame.clone()]).into());
    assert!(!is_wire_safe(&map.into()));
    let bytes = frame.encode();
    assert_eq!(bytes, b"+a\r\nb\r\n");
    let mut buf = BytesMut::from(&bytes[..]);
    assert_eq!(RespFrame::decode(&mut buf), Ok(SimpleString::new("a").into()));
    assert_eq!(&buf[..], b"b\r\n");
}

#[test]
fn every_fatal_error() {
    let cases: Vec<(&[u8], RespError)> = vec![
        (b"?\r\n", RespError::InvalidFrameType),
        (b"#x\r\n", RespError::InvalidFrameType),
        (b"_x\r\n", RespError::InvalidFrameType),
        (b":abc\r\n", RespError::ParseIntError),
        (b":\r\n", RespError::ParseIntError),
        (b":9223372036854775808\r\n", RespError::ParseIntError),
        (b":-9223372036854775809\r\n", RespError::ParseIntError),
        (b":1 \r\n", RespError::ParseIntError),
        (b",abc\r\n", RespError::ParseFloatError),
        (b",\r\n", RespError::ParseFloatError),
        (b"$abc\r\n", RespError::ParseIntError),
        (b"$-2\r\n", RespError::ParseIntError),
        (b"*-2\r\n", RespError::ParseIntError),
        (b"*1\r\n?\r\n", RespError::InvalidFrameType),
        (b"*2\r\n:1\r\n:x\r\n", RespError::ParseIntError),
        (b"%1\r\n:1\r\n:2\r\n", RespError::InvalidFrameType),
        (b"~1\r\n,x\r\n", RespError::ParseFloatError),
    ];
    for (bytes, error) in cases {
        let mut buf = BytesMut::from(bytes);
        assert_eq!(RespFrame::decode(&mut buf), Err(error), "{:?}", bytes);
        assert_eq!(&buf[..], bytes);
    }
}

#[test]
fn waiting_is_no_error() {
    let cases: Vec<&[u8]> = vec![
        b"",
        b"+",
        b"+OK",
        b"+OK\r",
        b"$",
        b"$5\r\nhell",
        b"$5\r\nhello\r",
        b"*2\r\n:1\r\n",
        b"*2\r\n:abc\r\n",
        b"#t\r",
        b"_\r",
        b"$18446744073709551615\r\nxx",
        b"$18446744073709551613\r\nxx",
        b"*18446744073709551615\r\n:1\r\n",
        b"%1\r\n+k\r\n",
    ];
    for bytes in cases {
        let mut buf = BytesMut::from(bytes);
        assert_eq!(RespFrame::decode(&mut buf), Err(RespError::NotComplete), "{:?}", bytes);
        assert_eq!(&buf[..], bytes);
    }
}

#[test]
fn integers_are_read_with_or_without_sign() {
    for (bytes, value) in [
        (&b":0\r\n"[..], 0i64),
        (b":+0\r\n", 0),
        (b":-0\r\n", 0),
        (b":007\r\n", 7),
        (b":-9223372036854775808\r\n", i64::MIN),
        (b":9223372036854775807\r\n", i64::MAX),
    ] {
        let mut buf = BytesMut::from(bytes);
        assert_eq!(i64::decode(&mut buf), Ok(value));
    }
}

#[test]
fn text_is_decoded_leniently() {
    let mut buf = BytesMut::from(&b"+a\xffb\r\n"[..]);
    assert_eq!(SimpleString::decode(&mut buf), Ok(SimpleString::new("a\u{fffd}b")));
    let mut buf = BytesMut::from(&b"-\xe2\x82\r\n"[..]);
    assert_eq!(SimpleError::decode(&mut buf), Ok(SimpleError::new("\u{fffd}")));
    let mut buf = BytesMut::from("+h\u{e9}llo\r\n");
    assert_eq!(SimpleString::decode(&mut buf).unwrap().as_str(), "h\u{e9}llo");
}

#[test]
fn a_bulk_string_takes_its_terminator_unseen() {
    let mut buf = BytesMut::from("$3\r\nabcXY+OK\r\n");
    assert_eq!(BulkString::decode(&mut buf), Ok(BulkString::new(b"abc".to_vec())));
    assert_eq!(&buf[..], b"+OK\r\n");
}

#[test]
fn a_map_keeps_the_later_of_two_entries_with_one_key() {
    let mut buf = BytesMut::from("%3\r\n+b\r\n:1\r\n+a\r\n:2\r\n+b\r\n:3\r\n");
    let map = RespMap::decode(&mut buf).unwrap();
    assert_eq!(map.len(), 2);
    assert_eq!(map.get("a"), Some(&RespFrame::Integer(2)));
    assert_eq!(map.get("b"), Some(&RespFrame::Integer(3)));
    assert_eq!(map.encode(), b"%2\r\n+a\r\n:+2\r\n+b\r\n:+3\r\n");
}

#[test]
fn a_double_gets_its_sign_written_out() {
    let mut buf = BytesMut::from(",1.50\r\n");
    let d = RespDouble::decode(&mut buf).unwrap();
    assert_eq!(d.literal(), b"+1.50");
    assert_eq!(d.encode(), b",+1.50\r\n");
}

#[test]
fn decode_reads_frames_one_after_the_other() {
    let mut buf = BytesMut::from("*1\r\n:1\r\n$-1\r\n*-1\r\n#f\r\n_\r\n~0\r\n%0\r\n");
    let mut seen = Vec::new();
    loop {
        match RespFrame::decode(&mut buf) {
            Ok(frame) => seen.push(frame),
            Err(e) => {
                assert_eq!(e, RespError::NotComplete);
                break;
            }
        }
    }
    assert_eq!(
        seen,
        vec![
            RespArray::new(vec![RespFrame::Integer(1)]).into(),
            RespNullBulkString.into(),
            RespNullArray.into(),
            false.into(),
            RespNull.into(),
            RespSet::new(vec![]).into(),
            RespMap::new().into(),
        ]
    );
    assert_eq!(buf.len(), 0);
}

#[test]
fn integers_are_read_as_the_standard_library_reads_them() {
    let payloads = [
        "0", "1", "-1", "+1", "00", "-00", "+", "-", "", "1-", "--1", "+-1", "1.0", " 1", "1 ",
        "9223372036854775807", "9223372036854775808", "-9223372036854775808",
        "-9223372036854775809", "99999999999999999999999", "0000000000000000000000001", "1e3",
        "0x10", "12a", "a12", "١٢",
    ];
    for payload in payloads {
        let mut buf = BytesMut::from(format!(":{}\r\n", payload).as_bytes());
        let read = i64::decode(&mut buf);
        match payload.parse::<i64>() {
            Ok(v) => assert_eq!(read, Ok(v), "{:?}", payload),
            Err(_) => assert_eq!(read, Err(RespError::ParseIntError), "{:?}", payload),
        }
        let header = format!("${}\r\n", payload);
        let read = simple_redis::parse_length(header.as_bytes(), "$");
        match payload.parse::<usize>() {
            Ok(v) => assert_eq!(read, Ok((header.len() - 2, v)), "{:?}", payload),
            Err(_) => assert_eq!(read, Err(RespError::ParseIntError), "{:?}", payload),
        }
    }
}

#[test]
fn integers_are_written_as_the_standard_library_writes_them() {
    for v in [0i64, 1, -1, 9, 10, -10, 99, 100, 12345, i64::MAX, i64::MIN, i64::MIN + 1] {
        let sign = if v < 0 { "" } else { "+" };
        assert_eq!(v.encode(), format!(":{}{}\r\n", sign, v).into_bytes());
    }
    for n in [0usize, 1, 9, 10, 11, 99, 100, 101, 1000] {
        let out = BulkString::new(vec![b'a'; n]).encode();
        assert!(out.starts_with(format!("${}\r\n", n).as_bytes()));
    }
}
