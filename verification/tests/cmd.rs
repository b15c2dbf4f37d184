use bytes::BytesMut;
use simple_redis::backend::{Backend, SAddOutcome};
use simple_redis::cmd::{
    resp_ok, Command, CommandError, CommandExecutor, Echo, Get, HGet, HGetAll, HMGet, HSet, SAdd,
    SIsmember, SetCmd, Unrecognized,
};
use simple_redis::{BulkString, RespArray, RespDecode, RespFrame, RespNull};

fn array_of(bytes: &[u8]) -> RespArray {
    let mut buf = BytesMut::new();
    buf.extend_from_slice(bytes);
    RespArray::decode(&mut buf).unwrap()
}

#[test]
fn test_hget_from_resp_array() {
    let mut buf = BytesMut::new();
    buf.extend_from_slice(b"*3\r\n$4\r\nhget\r\n$3\r\nmap\r\n$5\r\nhello\r\n");

    let frame = RespArray::decode(&mut buf).unwrap();

    let result: HGet = frame.try_into().unwrap();
    assert_eq!(result.key, "map");
    assert_eq!(result.field, "hello");
}

#[test]
fn test_hgetall_from_resp_array() {
    let mut buf = BytesMut::new();
    buf.extend_from_slice(b"*4\r\n$4\r\nhset\r\n$3\r\nmap\r\n$5\r\nhello\r\n$5\r\nworld\r\n");

    let frame = RespArray::decode(&mut buf).unwrap();

    let result: HSet = frame.try_into().unwrap();
    assert_eq!(result.key, "map");
    assert_eq!(result.field, "hello");
    assert_eq!(result.value, RespFrame::BulkString(b"world".into()));
}

#[test]
fn test_hset_from_resp_array() {
    let mut buf = BytesMut::new();
    buf.extend_from_slice(b"*2\r\n$7\r\nhgetall\r\n$3\r\nmap\r\n");

    let frame = RespArray::decode(&mut buf).unwrap();

    let result: HGetAll = frame.try_into().unwrap();
    assert_eq!(result.key, "map");
}

#[test]
fn test_hgetall_existing_key() {
    let mut backend = Backend::new();
    backend.hset(
        "myhash".to_string(),
        "field1".to_string(),
        BulkString::new("value1").into(),
    );
    backend.hset(
        "myhash".to_string(),
        "field2".to_string(),
        BulkString::new("value2").into(),
    );

    let command = HGetAll {
        key: "myhash".to_string(),
    };
    let result = command.execute(&mut backend);

    assert!(matches!(result, RespFrame::Array(_)));
    if let RespFrame::Array(array) = result {
        let mut pairs: Vec<_> = array
            .chunks(2)
            .map(|chunk| (chunk[0].clone(), chunk[1].clone()))
            .collect();
        pairs.sort_by(|a, b| a.0.partial_cmp(&b.0).unwrap());

        let mut expected = vec![
            (
                BulkString::new("field1").into(),
                BulkString::new("value1").into(),
            ),
            (
                BulkString::new("field2").into(),
                BulkString::new("value2").into(),
            ),
        ];
        expected.sort_by(|a: &(RespFrame, RespFrame), b| a.0.partial_cmp(&b.0).unwrap());

        assert_eq!(pairs, expected);
    }
}

#[test]
fn test_hgetall_nonexistent_key() {
    let mut backend = Backend::new();
    let command = HGetAll {
        key: "nonexistent".to_string(),
    };
    let result = command.execute(&mut backend);

    assert!(matches!(result, RespFrame::Array(array) if array.is_empty()));
}

#[test]
fn test_get_from_resp_array() {
    let mut buf = BytesMut::new();
    buf.extend_from_slice(b"*2\r\n$3\r\nget\r\n$5\r\nhello\r\n");

    let frame = RespArray::decode(&mut buf).unwrap();
    let result: Get = frame.try_into().unwrap();
    assert_eq!(result.key, "hello");
}

#[test]
fn test_set_from_resp_array() {
    let mut buf = BytesMut::new();
    buf.extend_from_slice(b"*3\r\n$3\r\nset\r\n$5\r\nhello\r\n$5\r\nworld\r\n");

    let frame = RespArray::decode(&mut buf).unwrap();

    let result: SetCmd = frame.try_into().unwrap();
    assert_eq!(result.key, "hello");
    assert_eq!(result.value, RespFrame::BulkString(b"world".into()));
}

#[test]
fn test_set_get_cmd() {
    let mut backend = Backend::new();
    let cmd = SetCmd {
        key: "hello".to_string(),
        value: RespFrame::BulkString(b"world".into()),
    };
    let result = cmd.execute(&mut backend);
    assert_eq!(result, resp_ok());

    let cmd = Get {
        key: "hello".to_string(),
    };
    let result = cmd.execute(&mut backend);
    assert_eq!(result, RespFrame::BulkString(b"world".into()));
}

#[test]
fn get_of_a_missing_key_replies_null() {
    let mut backend = Backend::new();
    let reply = Get {
        key: "missing".to_string(),
    }
    .execute(&mut backend);
    assert_eq!(reply, RespFrame::Null(RespNull));
}

#[test]
fn set_then_get_gives_any_frame_back() {
    let mut backend = Backend::new();
    let value = RespFrame::Array(RespArray::new(vec![
        RespFrame::Integer(-7),
        RespFrame::Boolean(true),
        RespFrame::Null(RespNull),
    ]));
    backend.set("k".to_string(), value.clone());
    assert_eq!(backend.get("k"), Some(value));
    assert_eq!(backend.get("other"), None);
}

#[test]
fn set_overwrites() {
    let mut backend = Backend::new();
    backend.set("k".to_string(), RespFrame::Integer(1));
    backend.set("k".to_string(), RespFrame::Integer(2));
    assert_eq!(backend.get("k"), Some(RespFrame::Integer(2)));
}

#[test]
fn hset_then_hget_and_other_field() {
    let mut backend = Backend::new();
    let reply = HSet {
        key: "h".to_string(),
        field: "f".to_string(),
        value: RespFrame::Integer(5),
    }
    .execute(&mut backend);
    assert_eq!(reply, resp_ok());
    let reply = HGet {
        key: "h".to_string(),
        field: "f".to_string(),
    }
    .execute(&mut backend);
    assert_eq!(reply, RespFrame::Integer(5));
    let reply = HGet {
        key: "h".to_string(),
        field: "other".to_string(),
    }
    .execute(&mut backend);
    assert_eq!(reply, RespFrame::Null(RespNull));
    let reply = HGet {
        key: "nohash".to_string(),
        field: "f".to_string(),
    }
    .execute(&mut backend);
    assert_eq!(reply, RespFrame::Null(RespNull));
    let hash = backend.hgetall("h").unwrap();
    assert_eq!(hash.len(), 1);
    assert_eq!(
        hash.get("f").map(|v| v.value().clone()),
        Some(RespFrame::Integer(5))
    );
    backend.hset("h".to_string(), "g".to_string(), RespFrame::Integer(6));
    assert_eq!(hash.len(), 1);
    let listing = backend.hash_listing("h").unwrap();
    assert_eq!(listing.len(), 2);
    assert!(listing.contains(&("f".to_string(), RespFrame::Integer(5))));
    assert!(listing.contains(&("g".to_string(), RespFrame::Integer(6))));
    assert!(backend.hgetall("nohash").is_none());
    assert_eq!(backend.hash_listing("nohash"), None);
}

#[test]
fn hmget_gives_a_slot_for_each_field() {
    let mut backend = Backend::new();
    backend.hset("h".to_string(), "a".to_string(), RespFrame::Integer(1));
    backend.hset("h".to_string(), "c".to_string(), RespFrame::Integer(3));
    let reply = HMGet {
        key: "h".to_string(),
        fields: vec!["a".to_string(), "b".to_string(), "c".to_string()],
    }
    .execute(&mut backend);
    assert_eq!(
        reply,
        RespFrame::Array(RespArray::new(vec![
            RespFrame::Integer(1),
            RespFrame::Null(RespNull),
            RespFrame::Integer(3),
        ]))
    );
}

#[test]
fn hmget_from_resp_array() {
    let array = array_of(b"*4\r\n$5\r\nHMGET\r\n$1\r\nh\r\n$1\r\na\r\n$1\r\nb\r\n");
    let cmd: HMGet = array.try_into().unwrap();
    assert_eq!(cmd.key, "h");
    assert_eq!(cmd.fields, vec!["a".to_string(), "b".to_string()]);

    let array = array_of(b"*1\r\n$5\r\nhmget\r\n");
    let err = HMGet::try_from(array).unwrap_err();
    assert_eq!(err, CommandError::InvalidArgument("Invalid key".to_string()));

    let array = array_of(b"*3\r\n$5\r\nhmget\r\n$1\r\nh\r\n:+1\r\n");
    let err = HMGet::try_from(array).unwrap_err();
    assert_eq!(
        err,
        CommandError::InvalidArgument("Invalid field".to_string())
    );
}

#[test]
fn sadd_twice_then_sismember() {
    let mut backend = Backend::new();
    let member = RespFrame::BulkString(b"x".into());
    let reply = SAdd {
        key: "s".to_string(),
        value: member.clone(),
    }
    .execute(&mut backend);
    assert_eq!(reply, RespFrame::Integer(1));
    let reply = SAdd {
        key: "s".to_string(),
        value: member.clone(),
    }
    .execute(&mut backend);
    assert_eq!(reply, RespFrame::Integer(0));
    let reply = SIsmember {
        key: "s".to_string(),
        value: member.clone(),
    }
    .execute(&mut backend);
    assert_eq!(reply, RespFrame::Integer(1));
    let reply = SIsmember {
        key: "s".to_string(),
        value: RespFrame::BulkString(b"y".into()),
    }
    .execute(&mut backend);
    assert_eq!(reply, RespFrame::Integer(0));
    assert_eq!(backend.sadd("s".to_string(), member), SAddOutcome::Existed);
    assert_eq!(
        backend.sadd("s".to_string(), RespFrame::Integer(9)),
        SAddOutcome::Added
    );
}

#[test]
fn echo_replies_with_the_text() {
    let mut backend = Backend::new();
    let array = array_of(b"*2\r\n$4\r\necho\r\n$5\r\nhello\r\n");
    let cmd: Echo = array.try_into().unwrap();
    assert_eq!(cmd.value, "hello");
    assert_eq!(
        cmd.execute(&mut backend),
        RespFrame::BulkString(b"hello".into())
    );
}

#[test]
fn command_names_ignore_letter_case() {
    let array = array_of(b"*2\r\n$3\r\nGeT\r\n$1\r\nk\r\n");
    assert!(matches!(Command::try_from(array), Ok(Command::Get(_))));
    let frame = RespFrame::Array(array_of(b"*3\r\n$4\r\nSADD\r\n$1\r\ns\r\n:+1\r\n"));
    assert!(matches!(Command::try_from(frame), Ok(Command::SAdd(_))));
    let array = array_of(b"*3\r\n$9\r\nSisMember\r\n$1\r\ns\r\n:+1\r\n");
    assert!(matches!(
        Command::try_from(array),
        Ok(Command::SIsmember(_))
    ));
}

#[test]
fn unknown_command_is_unrecognized_and_replies_ok() {
    let mut backend = Backend::new();
    let array = array_of(b"*1\r\n$4\r\nping\r\n");
    let cmd = Command::try_from(array).unwrap();
    assert!(matches!(cmd, Command::Unrecognized(_)));
    assert_eq!(cmd.execute(&mut backend), resp_ok());
    assert_eq!(Unrecognized.execute(&mut backend), resp_ok());
}

#[test]
fn frames_that_are_no_command() {
    let err = Command::try_from(RespFrame::Integer(1)).unwrap_err();
    assert_eq!(
        err,
        CommandError::InvalidCommand("Command must be an Array".to_string())
    );
    let err = Command::try_from(RespArray::null()).unwrap_err();
    assert_eq!(
        err,
        CommandError::InvalidCommand(
            "Command must have a BulkString as the first argument".to_string()
        )
    );
    let err = Command::try_from(array_of(b"*1\r\n:+1\r\n")).unwrap_err();
    assert_eq!(
        err,
        CommandError::InvalidCommand(
            "Command must have a BulkString as the first argument".to_string()
        )
    );
}

#[test]
fn wrong_number_of_arguments() {
    let err = Get::try_from(array_of(b"*1\r\n$3\r\nget\r\n")).unwrap_err();
    assert_eq!(
        err,
        CommandError::InvalidCommand("get command must have exactly 1 argument".to_string())
    );
    let err = Command::try_from(array_of(b"*2\r\n$4\r\nhset\r\n$1\r\nh\r\n")).unwrap_err();
    assert_eq!(
        err,
        CommandError::InvalidCommand("hset command must have exactly 3 argument".to_string())
    );
}

#[test]
fn wrong_name_for_the_command() {
    let err = Get::try_from(array_of(b"*2\r\n$3\r\nset\r\n$1\r\nk\r\n")).unwrap_err();
    assert_eq!(
        err,
        CommandError::InvalidCommand("Invalid command: expect get, got set".to_string())
    );
    let err = Get::try_from(array_of(b"*2\r\n:+1\r\n$1\r\nk\r\n")).unwrap_err();
    assert_eq!(
        err,
        CommandError::InvalidCommand(
            "Command must have a BulkString as first argument.".to_string()
        )
    );
}

#[test]
fn arguments_of_the_wrong_kind() {
    let err = Get::try_from(array_of(b"*2\r\n$3\r\nget\r\n:+1\r\n")).unwrap_err();
    assert_eq!(err, CommandError::InvalidArgument("Invalid key".to_string()));
    let err = Get::try_from(array_of(b"*2\r\n$3\r\nget\r\n$-1\r\n")).unwrap_err();
    assert_eq!(err, CommandError::InvalidArgument("Invalid key".to_string()));
    let err = HGet::try_from(array_of(b"*3\r\n$4\r\nhget\r\n$1\r\nh\r\n:+1\r\n")).unwrap_err();
    assert_eq!(err, CommandError::InvalidArgument("Invalid key".to_string()));
}

#[test]
fn argument_that_is_not_utf8() {
    let array = RespArray::new(vec![
        RespFrame::BulkString(b"get".into()),
        RespFrame::BulkString(BulkString::new(vec![0xffu8, 0xfe])),
    ]);
    assert_eq!(Get::try_from(array).unwrap_err(), CommandError::Utf8Error);
}

#[test]
fn sets_of_distinct_keys_lose_none() {
    let mut backend = Backend::new();
    for i in 0..200i64 {
        backend.set(format!("key{}", i), RespFrame::Integer(i));
    }
    for i in (0..200i64).rev() {
        assert_eq!(backend.get(&format!("key{}", i)), Some(RespFrame::Integer(i)));
    }
}

#[test]
fn hsets_of_distinct_fields_lose_none() {
    let mut backend = Backend::new();
    for i in 0..200i64 {
        backend.hset("h".to_string(), format!("f{}", i), RespFrame::Integer(i));
    }
    for i in 0..200i64 {
        assert_eq!(
            backend.hget("h", &format!("f{}", i)),
            Some(RespFrame::Integer(i))
        );
    }
    assert_eq!(backend.hgetall("h").unwrap().len(), 200);
    let mut listing = backend.hash_listing("h").unwrap();
    listing.sort_by(|a, b| a.0.cmp(&b.0));
    listing.dedup_by(|a, b| a.0 == b.0);
    assert_eq!(listing.len(), 200);
    let reply = HGetAll {
        key: "h".to_string(),
    }
    .execute(&mut backend);
    match reply {
        RespFrame::Array(items) => assert_eq!(items.len(), 400),
        other => panic!("no array: {:?}", other),
    }
}

#[test]
fn well_formed_frames() {
    assert!(RespFrame::from("OK").is_well_formed());
    assert!(!RespFrame::from("a\r\nb").is_well_formed());
    assert!(!RespFrame::from("a\nb").is_well_formed());
    assert!(RespFrame::BulkString(b"a\r\nb".into()).is_well_formed());
    let nested = RespFrame::Array(RespArray::new(vec![
        RespFrame::Integer(1),
        RespFrame::from("bad\r"),
    ]));
    assert!(!nested.is_well_formed());
    let mut map = simple_redis::RespMap::new();
    map.insert("b".to_string(), RespFrame::Integer(1));
    map.insert("a".to_string(), RespFrame::Integer(2));
    assert!(RespFrame::RespMap(map).is_well_formed());
    let unsorted = simple_redis::RespMap(vec![
        ("b".to_string(), RespFrame::Integer(1)),
        ("a".to_string(), RespFrame::Integer(2)),
    ]);
    assert!(!RespFrame::RespMap(unsorted).is_well_formed());
    let twice = simple_redis::RespMap(vec![
        ("a".to_string(), RespFrame::Integer(1)),
        ("a".to_string(), RespFrame::Integer(2)),
    ]);
    assert!(!RespFrame::RespMap(twice).is_well_formed());
    let odd_double = RespFrame::Double(simple_redis::RespDouble(b"1..2".to_vec()));
    assert!(!odd_double.is_well_formed());
}

#[test]
fn error_messages() {
    assert_eq!(
        simple_redis::RespError::NotComplete.message(),
        "Frame is not complete"
    );
    assert_eq!(
        simple_redis::RespError::InvalidFrame("x".to_string()).message(),
        "Invalid frame: x"
    );
    assert_eq!(
        CommandError::InvalidArgument("Invalid key".to_string()).message(),
        "Invalid argument: Invalid key"
    );
    assert_eq!(
        CommandError::RespError(simple_redis::RespError::ParseIntError).message(),
        "Parse error: invalid integer"
    );
}
