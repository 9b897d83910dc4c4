use bytes::BytesMut;
use simple_redis::{
    extract_args, handle_request, validate_command, validate_command_exact_length,
    validate_command_minimum_length, Backend, BulkString, Command, CommandError,
    CommandExecutor, Echo, Get, HGet, HGetAll, HMGet, HSet, RedisRequest, RespArray,
    RespDecode, RespError, RespFrame, RespFrameCodec, RespNullBulkString, SISMember, Sadd,
    SetCmd, SimpleString,
};

fn rest_ok() -> RespFrame {
    SimpleString::new("OK").into()
}

fn rest_nil() -> RespFrame {
    RespNullBulkString.into()
}

fn bulk(s: &str) -> RespFrame {
    BulkString::new(s.as_bytes().to_vec()).into()
}

fn array(bytes: &[u8]) -> RespArray {
    let mut buf = BytesMut::new();
    buf.extend_from_slice(bytes);
    RespArray::decode(&mut buf).unwrap()
}

#[test]
fn test_echo() {
    let mut backend = Backend::new();
    let input = "$5\r\nhello\r\n".as_bytes();
    let frame = RespFrame::decode(&mut input.into()).unwrap();
    let cmd = Echo {
        value: "hello".to_string(),
    };
    let resp = cmd.execute(&mut backend);
    assert_eq!(frame, resp);
}

#[test]
fn test_hget_command_tryfrom() {
    let mut buf = BytesMut::new();
    buf.extend_from_slice(b"*3\r\n$4\r\nHGet\r\n$3\r\nkey\r\n$5\r\nfield\r\n");
    let frames = RespArray::decode(&mut buf).unwrap();
    let hget = HGet::try_from(frames).unwrap();
    assert_eq!(hget.key, "key");
    assert_eq!(hget.field, "field");
}

#[test]
fn test_hset_command_tryfrom() {
    let mut buf = BytesMut::new();
    buf.extend_from_slice(b"*4\r\n$4\r\nHset\r\n$3\r\nkey\r\n$5\r\nfield\r\n$5\r\nvalue\r\n");
    let frames = RespArray::decode(&mut buf).unwrap();
    let hset = HSet::try_from(frames).unwrap();
    assert_eq!(hset.key, "key");
    assert_eq!(hset.field, "field");
    assert_eq!(hset.value, bulk("value"));
}

#[test]
fn test_hgetall_command_tryfrom() {
    let mut buf = BytesMut::new();
    buf.extend_from_slice(b"*2\r\n$7\r\nHGETALL\r\n$3\r\nkey\r\n");
    let frames = RespArray::decode(&mut buf).unwrap();
    let hgetall = HGetAll::try_from(frames).unwrap();
    assert_eq!(hgetall.key, "key");
}

#[test]
fn test_hmget_command_tryfrom() {
    let mut buf = BytesMut::new();
    buf.extend_from_slice(b"*4\r\n$5\r\nhmget\r\n$3\r\nkey\r\n$6\r\nfield1\r\n$6\r\nfield2\r\n");
    let frames = RespArray::decode(&mut buf).unwrap();
    let hset = HMGet::try_from(frames).unwrap();
    let fields = vec!["field1".to_string(), "field2".to_string()];
    assert_eq!(hset.key, "key");
    assert_eq!(hset.fields, fields);
}

#[test]
fn test_hget_hset_command_execute() {
    let mut backend = Backend::new();
    let hset = HSet {
        key: "key".to_string(),
        field: "field".to_string(),
        value: BulkString::new("value".into()).into(),
    };
    let result = hset.execute(&mut backend);
    assert_eq!(result, rest_ok());
    let hget = HGet {
        key: "key".to_string(),
        field: "field".to_string(),
    };
    let result = hget.execute(&mut backend);
    assert_eq!(result, BulkString::new("value".into()).into());
}

#[test]
fn test_hmget_hset_command_execute() {
    let mut backend = Backend::new();
    let hset = HSet {
        key: "key".to_string(),
        field: "field".to_string(),
        value: BulkString::new("value".into()).into(),
    };
    let result = hset.execute(&mut backend);
    assert_eq!(result, rest_ok());

    let hset = HSet {
        key: "key".to_string(),
        field: "field1".to_string(),
        value: BulkString::new("value1".into()).into(),
    };
    let result = hset.execute(&mut backend);
    assert_eq!(result, rest_ok());

    let hmget = HMGet {
        key: "key".to_string(),
        fields: Vec::from(["field".to_string(), "field1".to_string()]),
    };
    let result = hmget.execute(&mut backend);
    let array = RespArray::new(
        [
            BulkString::new("value".to_string().into()).into(),
            BulkString::new("value1".to_string().into()).into(),
        ]
        .to_vec(),
    )
    .into();
    assert_eq!(result, array);
}

#[test]
fn test_get_command_tryfrom() {
    let mut buf = BytesMut::new();
    buf.extend_from_slice(b"*2\r\n$3\r\nget\r\n$5\r\nhello\r\n");
    let frames = RespArray::decode(&mut buf).unwrap();
    let get = Get::try_from(frames).unwrap();
    assert_eq!(get.key, "hello");
}

#[test]
fn test_set_command_tryfrom() {
    let mut buf = BytesMut::new();
    buf.extend_from_slice(b"*3\r\n$3\r\nset\r\n$5\r\nhello\r\n$5\r\nworld\r\n");
    let frames = RespArray::decode(&mut buf).unwrap();
    let set = SetCmd::try_from(frames).unwrap();
    assert_eq!(set.key, "hello");
    assert_eq!(set.value, BulkString::new("world".into()).into());
}

#[test]
fn test_get_set_execute() {
    let mut backend = Backend::new();
    let set = SetCmd {
        key: "hello".to_string(),
        value: BulkString::new("world".into()).into(),
    };
    let resp = set.execute(&mut backend);
    assert_eq!(resp, rest_ok());
    let get = Get {
        key: "hello".to_string(),
    };
    let resp = get.execute(&mut backend);
    assert_eq!(resp, BulkString::new("world".into()).into());
}

#[test]
fn test_sadd_tryfrom() {
    let mut buf = BytesMut::new();
    buf.extend_from_slice(b"*4\r\n$4\r\nsadd\r\n$3\r\nkey\r\n$3\r\n123\r\n$3\r\n345\r\n");
    let frames = RespArray::decode(&mut buf).unwrap();
    let cmd = Sadd::try_from(frames).unwrap();
    assert_eq!(cmd.key, "key");
    assert_eq!(cmd.members, vec!["123".to_string(), "345".to_string()]);
}

#[test]
fn test_sismember_tryfrom() {
    let mut buf = BytesMut::new();
    buf.extend_from_slice(b"*3\r\n$9\r\nsismember\r\n$3\r\nkey\r\n$3\r\n123\r\n");
    let frames = RespArray::decode(&mut buf).unwrap();
    let cmd = SISMember::try_from(frames).unwrap();
    assert_eq!(cmd.key, "key");
    assert_eq!(cmd.field, "123");
}

#[test]
fn test_sadd_execute() {
    let mut backend = Backend::new();
    let cmd = Sadd {
        key: "key".to_string(),
        members: vec!["123".to_string(), "345".to_string()],
    };
    let res = cmd.execute(&mut backend);
    assert_eq!(res, RespFrame::Integer(2));
}

#[test]
fn test_sismember_execute() {
    let mut backend = Backend::new();
    let cmd = SISMember {
        key: "key".to_string(),
        field: "123".to_string(),
    };
    let res = cmd.execute(&mut backend);
    assert_eq!(res, RespFrame::Integer(0));

    let cmd_sadd = Sadd {
        key: "key".to_string(),
        members: vec!["123".to_string(), "345".to_string()],
    };

    let _ = cmd_sadd.execute(&mut backend);
    let res = cmd.execute(&mut backend);
    assert_eq!(res, RespFrame::Integer(1));
}

#[test]
fn test_validate_command() {
    let frames = RespArray::new(vec![
        BulkString::new("get".as_bytes().to_vec()).into(),
        BulkString::new("hello".as_bytes().to_vec()).into(),
    ]);
    assert!(validate_command_exact_length(&frames, &["get"], 1).is_ok());

    let frames = RespArray::new(vec![
        BulkString::new("set".as_bytes().to_vec()).into(),
        BulkString::new("hello".as_bytes().to_vec()).into(),
        BulkString::new("world".as_bytes().to_vec()).into(),
    ]);
    assert_eq!(
        validate_command_exact_length(&frames, &["set"], 1).unwrap_err(),
        CommandError::InvalidArgument("command set expected 1 arguments".to_string())
    );
}

#[test]
fn test_extract_args() {
    let frames = RespArray::new(vec![
        BulkString::new("set".as_bytes().to_vec()).into(),
        BulkString::new("hello".as_bytes().to_vec()).into(),
        BulkString::new("world".as_bytes().to_vec()).into(),
    ]);
    let args = extract_args(frames).unwrap();
    assert_eq!(args.len(), 2);
    assert_eq!(args[0], BulkString::new("hello".as_bytes().to_vec()).into());
    assert_eq!(args[1], BulkString::new("world".as_bytes().to_vec()).into());
}

#[test]
fn test_codec_decode() {
    let mut buf = BytesMut::from("*3\r\n$3\r\nset\r\n$5\r\nhello\r\n$5\r\nworld\r\n");
    let mut codec = RespFrameCodec;
    let frame = codec.decode(&mut buf.clone()).unwrap();
    let resp_frame: RespFrame = RespArray::decode(&mut buf).unwrap().into();
    assert_eq!(frame, Some(resp_frame));

    let mut buf = bytes::BytesMut::new();
    buf.extend_from_slice(b"");
    let frame = codec.decode(&mut buf).unwrap();
    assert!(frame.is_none());
}

#[test]
fn test_stream_handler() {
    let mut backend = Backend::new();

    let mut buf = BytesMut::from("*3\r\n$3\r\nset\r\n$5\r\nhello\r\n$5\r\nworld\r\n");
    let frame: RespFrame = RespArray::decode(&mut buf).unwrap().into();

    let response = handle_request(RedisRequest { frame }, &mut backend).unwrap();
    let new_frame: RespFrame = SimpleString::new("OK").into();
    assert_eq!(response.frame, new_frame);

    let mut buf = BytesMut::from("*2\r\n$3\r\nget\r\n$5\r\nhello\r\n");
    let frame: RespFrame = RespArray::decode(&mut buf).unwrap().into();
    let response = handle_request(RedisRequest { frame }, &mut backend).unwrap();
    let new_frame: RespFrame = BulkString::new("world".to_string().into()).into();
    assert_eq!(response.frame, new_frame);
}

#[test]
fn codec_tells_waiting_from_failing() {
    let mut codec = RespFrameCodec;
    let mut buf = BytesMut::from("*2\r\n$3\r\nget\r\n");
    assert_eq!(codec.decode(&mut buf), Ok(None));
    assert_eq!(&buf[..], b"*2\r\n$3\r\nget\r\n");
    buf.extend_from_slice(b"$1\r\nk\r\n+next\r\n");
    let frame = codec.decode(&mut buf).unwrap().unwrap();
    assert_eq!(frame, RespArray::new(vec![bulk("get"), bulk("k")]).into());
    assert_eq!(&buf[..], b"+next\r\n");
    let mut buf = BytesMut::from("?what\r\n");
    assert_eq!(codec.decode(&mut buf), Err(RespError::InvalidFrameType));
    let mut out = BytesMut::from("x");
    codec.encode(rest_ok(), &mut out);
    codec.encode(RespFrame::Integer(7), &mut out);
    assert_eq!(&out[..], b"x+OK\r\n:+7\r\n");
}

#[test]
fn validation_errors() {
    let frames = RespArray::new(vec![bulk("GeT"), bulk("k")]);
    assert!(validate_command_exact_length(&frames, &["get"], 1).is_ok());
    assert!(validate_command_minimum_length(&frames, &["get"], 1).is_ok());
    assert!(validate_command_minimum_length(&frames, &["get"], 0).is_ok());
    assert!(validate_command(&frames, &["get"], 1, |have, want| have == want).is_ok());
    assert_eq!(
        validate_command(&frames, &["get"], 1, |_, _| false),
        Err(CommandError::InvalidArgument("command get expected 1 arguments".to_string()))
    );
    assert_eq!(
        validate_command_minimum_length(&frames, &["get"], 2),
        Err(CommandError::InvalidArgument("command get expected 2 arguments".to_string()))
    );
    assert_eq!(
        validate_command_exact_length(&frames, &["config", "get"], 12),
        Err(CommandError::InvalidArgument("command config get expected 12 arguments".to_string()))
    );
    assert_eq!(
        validate_command_exact_length(&frames, &["set"], 1),
        Err(CommandError::InvalidCommand("expected set got GeT".to_string()))
    );
    let frames = RespArray::new(vec![RespFrame::Integer(1), bulk("k")]);
    assert_eq!(
        validate_command_exact_length(&frames, &["get"], 1),
        Err(CommandError::InvalidCommand(
            "Command must have a BulkString as the first argument".to_string()
        ))
    );
    let frames = RespArray::new(vec![bulk("config")]);
    assert_eq!(
        validate_command_exact_length(&frames, &["config", "get"], 0),
        Err(CommandError::InvalidCommand(
            "Command must have a BulkString as the first argument".to_string()
        ))
    );
    let frames = RespArray::new(vec![BulkString::new(vec![b'g', 0xff]).into(), bulk("k")]);
    assert_eq!(
        validate_command_exact_length(&frames, &["get"], 1),
        Err(CommandError::InvalidCommand("expected get got g\u{fffd}".to_string()))
    );
    assert_eq!(extract_args(RespArray::new(vec![])).unwrap().len(), 0);
}

#[test]
fn keys_are_read_leniently() {
    let frames = RespArray::new(vec![bulk("get"), BulkString::new(vec![b'a', 0xff, b'b']).into()]);
    let get = Get::try_from(frames).unwrap();
    assert_eq!(get.key, "a\u{fffd}b");
    let frames = RespArray::new(vec![bulk("get"), RespFrame::Integer(1)]);
    assert_eq!(
        Get::try_from(frames).unwrap_err(),
        CommandError::InvalidArgument("Invalid key".to_string())
    );
    let frames = RespArray::new(vec![bulk("hmget"), bulk("k"), RespFrame::Integer(1), bulk("f")]);
    let hmget = HMGet::try_from(frames).unwrap();
    assert_eq!(hmget.fields, vec!["f".to_string()]);
    let frames = RespArray::new(vec![bulk("sadd"), bulk("k"), bulk("m")]);
    let sadd = Sadd::try_from(frames).unwrap();
    assert_eq!(sadd.members, vec!["m".to_string()]);
    let frames = RespArray::new(vec![bulk("sadd"), bulk("k")]);
    assert_eq!(
        Sadd::try_from(frames).unwrap_err(),
        CommandError::InvalidArgument("command sadd expected 2 arguments".to_string())
    );
}

#[test]
fn command_is_chosen_by_name() {
    let cmd = Command::try_from(array(b"*2\r\n$3\r\nGET\r\n$1\r\nk\r\n")).unwrap();
    assert!(matches!(cmd, Command::Get(_)));
    let cmd = Command::try_from(array(b"*3\r\n$3\r\nSet\r\n$1\r\nk\r\n:1\r\n")).unwrap();
    assert!(matches!(cmd, Command::SetCmd(_)));
    let cmd = Command::try_from(array(b"*3\r\n$4\r\nhget\r\n$1\r\nk\r\n$1\r\nf\r\n")).unwrap();
    assert!(matches!(cmd, Command::HGet(_)));
    let cmd =
        Command::try_from(array(b"*4\r\n$4\r\nhset\r\n$1\r\nk\r\n$1\r\nf\r\n$1\r\nv\r\n")).unwrap();
    assert!(matches!(cmd, Command::HSet(_)));
    let cmd = Command::try_from(array(b"*2\r\n$7\r\nhgetall\r\n$1\r\nk\r\n")).unwrap();
    assert!(matches!(cmd, Command::HGetAll(_)));
    let cmd = Command::try_from(array(b"*3\r\n$5\r\nhmget\r\n$1\r\nk\r\n$1\r\nf\r\n")).unwrap();
    assert!(matches!(cmd, Command::HMGet(_)));
    let cmd = Command::try_from(array(b"*3\r\n$4\r\nsadd\r\n$1\r\nk\r\n$1\r\nm\r\n")).unwrap();
    assert!(matches!(cmd, Command::SADD(_)));
    let cmd = Command::try_from(array(b"*3\r\n$9\r\nsismember\r\n$1\r\nk\r\n$1\r\nm\r\n")).unwrap();
    assert!(matches!(cmd, Command::SISMEMBER(_)));
    let cmd = Command::try_from(array(b"*2\r\n$4\r\necho\r\n$1\r\nx\r\n")).unwrap();
    assert!(matches!(cmd, Command::Echo(_)));
    let cmd = Command::try_from(array(b"*1\r\n$4\r\nping\r\n")).unwrap();
    assert!(matches!(cmd, Command::UnRecognized(_)));
    let mut backend = Backend::new();
    assert_eq!(cmd.execute(&mut backend), rest_ok());
    assert_eq!(
        Command::try_from(array(b"*0\r\n")).unwrap_err(),
        CommandError::InvalidCommand(
            "Command must have a BulkString as the first argument".to_string()
        )
    );
    assert_eq!(
        Command::try_from(array(b"*1\r\n:1\r\n")).unwrap_err(),
        CommandError::InvalidCommand(
            "Command must have a BulkString as the first argument".to_string()
        )
    );
    assert_eq!(
        Command::try_from(RespFrame::Integer(1)).unwrap_err(),
        CommandError::InvalidCommand("Command must be an array".to_string())
    );
    assert_eq!(
        Command::try_from(array(b"*1\r\n$3\r\nget\r\n")).unwrap_err(),
        CommandError::InvalidArgument("command get expected 1 arguments".to_string())
    );
    assert_eq!(
        CommandError::from(RespError::NotComplete),
        CommandError::RespError(RespError::NotComplete)
    );
}

#[test]
fn sadd_counts_a_member_once() {
    let mut backend = Backend::new();
    let cmd = Command::try_from(array(
        b"*5\r\n$4\r\nSADD\r\n$3\r\nkey\r\n$1\r\na\r\n$1\r\na\r\n$1\r\nb\r\n",
    ))
    .unwrap();
    assert_eq!(cmd.execute(&mut backend), RespFrame::Integer(2));
    let cmd = Command::try_from(array(b"*3\r\n$9\r\nSISMEMBER\r\n$3\r\nkey\r\n$1\r\na\r\n")).unwrap();
    assert_eq!(cmd.execute(&mut backend), RespFrame::Integer(1));
    let cmd = Command::try_from(array(b"*3\r\n$9\r\nSISMEMBER\r\n$3\r\nkey\r\n$1\r\nc\r\n")).unwrap();
    assert_eq!(cmd.execute(&mut backend), RespFrame::Integer(0));
    let cmd = Command::try_from(array(b"*3\r\n$9\r\nSISMEMBER\r\n$3\r\nnon\r\n$1\r\na\r\n")).unwrap();
    assert_eq!(cmd.execute(&mut backend), RespFrame::Integer(0));
    let again = Sadd { key: "key".to_string(), members: vec!["b".into(), "c".into(), "c".into()] };
    assert_eq!(again.execute(&mut backend), RespFrame::Integer(1));
}

#[test]
fn hset_then_hget() {
    let mut backend = Backend::new();
    let cmd = Command::try_from(array(
        b"*4\r\n$4\r\nHSET\r\n$3\r\nkey\r\n$5\r\nfield\r\n$5\r\nvalue\r\n",
    ))
    .unwrap();
    assert_eq!(cmd.execute(&mut backend), rest_ok());
    let cmd = Command::try_from(array(b"*3\r\n$4\r\nHGET\r\n$3\r\nkey\r\n$5\r\nfield\r\n")).unwrap();
    assert_eq!(cmd.execute(&mut backend), bulk("value"));
    let cmd = Command::try_from(array(b"*3\r\n$4\r\nHGET\r\n$3\r\nkey\r\n$7\r\nmissing\r\n")).unwrap();
    assert_eq!(cmd.execute(&mut backend), rest_nil());
    let cmd = Command::try_from(array(b"*3\r\n$4\r\nHGET\r\n$3\r\nnon\r\n$5\r\nfield\r\n")).unwrap();
    assert_eq!(cmd.execute(&mut backend), rest_nil());
}

#[test]
fn hmget_answers_for_each_field() {
    let mut backend = Backend::new();
    let hset = HSet { key: "key".into(), field: "f1".into(), value: bulk("v1") };
    hset.execute(&mut backend);
    let cmd = Command::try_from(array(
        b"*4\r\n$5\r\nHMGET\r\n$3\r\nkey\r\n$2\r\nf1\r\n$2\r\nf2\r\n",
    ))
    .unwrap();
    assert_eq!(
        cmd.execute(&mut backend),
        RespArray::new(vec![bulk("v1"), rest_nil()]).into()
    );
    let none = HMGet { key: "non".into(), fields: vec!["a".into(), "b".into(), "c".into()] };
    assert_eq!(
        none.execute(&mut backend),
        RespArray::new(vec![rest_nil(), rest_nil(), rest_nil()]).into()
    );
    let empty = HMGet { key: "key".into(), fields: vec![] };
    assert_eq!(empty.execute(&mut backend), RespArray::new(vec![]).into());
}

#[test]
fn hgetall_lists_each_field_once() {
    let mut backend = Backend::new();
    let all = HGetAll { key: "key".into() };
    assert_eq!(all.execute(&mut backend), rest_nil());
    for (f, v) in [("a", "1"), ("b", "2"), ("c", "3"), ("a", "4")] {
        HSet { key: "key".into(), field: f.into(), value: bulk(v) }.execute(&mut backend);
    }
    let reply = all.execute(&mut backend);
    let items = match reply {
        RespFrame::Array(a) => a,
        other => panic!("{:?}", other),
    };
    assert_eq!(items.len(), 6);
    let frames = items.frames();
    let mut pairs: Vec<(RespFrame, RespFrame)> = Vec::new();
    for i in 0..3 {
        pairs.push((frames[2 * i].clone(), frames[2 * i + 1].clone()));
    }
    for (f, v) in [("a", "4"), ("b", "2"), ("c", "3")] {
        assert!(pairs.contains(&(bulk(f), bulk(v))));
    }
}

#[test]
fn namespaces_do_not_touch() {
    let mut backend = Backend::new();
    SetCmd { key: "k".into(), value: bulk("scalar") }.execute(&mut backend);
    HSet { key: "k".into(), field: "f".into(), value: bulk("hash") }.execute(&mut backend);
    Sadd { key: "k".into(), members: vec!["m".into()] }.execute(&mut backend);
    assert_eq!(Get { key: "k".into() }.execute(&mut backend), bulk("scalar"));
    assert_eq!(HGet { key: "k".into(), field: "f".into() }.execute(&mut backend), bulk("hash"));
    assert_eq!(
        SISMember { key: "k".into(), field: "m".into() }.execute(&mut backend),
        RespFrame::Integer(1)
    );
    assert_eq!(Get { key: "other".into() }.execute(&mut backend), rest_nil());
    assert_eq!(backend.get("k"), Some(bulk("scalar")));
    assert_eq!(backend.get("f"), None);
    assert_eq!(backend.hget("k", "f"), Some(bulk("hash")));
    assert_eq!(backend.hget("k", "m"), None);
    assert_eq!(backend.sismember("k", "m"), Some(1));
    assert_eq!(backend.sismember("k", "f"), Some(0));
    assert_eq!(backend.sismember("f", "m"), None);
    assert_eq!(backend.sadd("fresh".to_string(), vec![]), 0);
    assert_eq!(backend.sismember("fresh", "m"), Some(0));
    let hash = backend.hgetall("k").unwrap();
    assert_eq!(hash.len(), 1);
    assert!(backend.hgetall("other").is_none());
    backend.set("k".to_string(), bulk("again"));
    assert_eq!(backend.get("k"), Some(bulk("again")));
}

#[test]
fn a_request_that_is_no_command_changes_nothing() {
    let mut backend = Backend::new();
    let r = handle_request(RedisRequest { frame: RespFrame::Integer(1) }, &mut backend);
    assert_eq!(
        r.unwrap_err(),
        CommandError::InvalidCommand("Command must be an array".to_string())
    );
    let frame: RespFrame = RespArray::new(vec![bulk("echo"), bulk("hi")]).into();
    let r = handle_request(RedisRequest { frame }, &mut backend).unwrap();
    assert_eq!(r.frame, bulk("hi"));
}
