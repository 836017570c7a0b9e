use bytes::BytesMut;
use simple_redis::cmd::resp_ok;
use simple_redis::shard::shard_of;
use simple_redis::{
    AddMember, Backend, BulkString, Command, CommandError, CommandExecutor, Echo, Get, HGet,
    HGetAll, HMGet, HSet, RespArray, RespDecode, RespEncode, RespError, RespFrame, RespNull,
    SetValue, SisMember,
};

fn request(parts: &[&[u8]]) -> RespArray {
    RespArray::new(
        parts
            .iter()
            .map(|part| RespFrame::BulkString(BulkString::new(part.to_vec())))
            .collect(),
    )
}

#[test]
fn test_hget_from_resp_array() {
    let mut buf = BytesMut::new();
    buf.extend_from_slice(b"*3\r\n$4\r\nhget\r\n$3\r\nmap\r\n$5\r\nhello\r\n");

    let frame = RespArray::decode(&mut buf).unwrap();

    let result: HGet = frame.try_into().unwrap();
    assert_eq!(result.key, "map");
    assert_eq!(result.field, "hello");
}

#[test]
fn test_hgetall_from_resp_array() {
    let mut buf = BytesMut::new();
    buf.extend_from_slice(b"*2\r\n$7\r\nhgetall\r\n$3\r\nmap\r\n");
    let frame = RespArray::decode(&mut buf).unwrap();
    let result: HGetAll = frame.try_into().unwrap();
    assert_eq!(result.key, "map");
}

#[test]
fn test_hset_from_resp_array() {
    let mut buf = BytesMut::new();
    buf.extend_from_slice(b"*4\r\n$4\r\nhset\r\n$3\r\nmap\r\n$5\r\nhello\r\n$5\r\nworld\r\n");

    let frame = RespArray::decode(&mut buf).unwrap();
    let result: HSet = frame.try_into().unwrap();

    assert_eq!(result.key, "map");
    assert_eq!(result.field, "hello");
    assert_eq!(result.value, RespFrame::BulkString(b"world".into()));
}

#[test]
fn test_hset_hget_hgetall_commands() {
    let mut backend = Backend::new();
    let cmd = HSet {
        key: "map".to_string(),
        field: "hello".to_string(),
        value: RespFrame::BulkString(b"world".into()),
    };
    let result = cmd.execute(&mut backend);
    assert_eq!(result, resp_ok());
    let cmd = HSet {
        key: "map".to_string(),
        field: "hello1".to_string(),
        value: RespFrame::BulkString(b"world1".into()),
    };
    cmd.execute(&mut backend);
    let cmd = HGet {
        key: "map".to_string(),
        field: "hello".to_string(),
    };
    let result = cmd.execute(&mut backend);
    assert_eq!(result, RespFrame::BulkString(b"world".into()));
    let cmd = HGetAll {
        key: "map".to_string(),
        sort: true,
    };
    let result = cmd.execute(&mut backend);
    let expected = RespArray::new(vec![
        RespFrame::BulkString(b"hello".into()),
        RespFrame::BulkString(b"world".into()),
        RespFrame::BulkString(b"hello1".into()),
        RespFrame::BulkString(b"world1".into()),
    ]);
    assert_eq!(result, expected.into());
}

#[test]
fn test_command() {
    let mut buf = BytesMut::new();
    buf.extend_from_slice(b"*2\r\n$3\r\nget\r\n$5\r\nhello\r\n");

    let frame = RespArray::decode(&mut buf).unwrap();
    let cmd: Command = frame.try_into().unwrap();

    let mut backend = Backend::new();
    let ret = cmd.execute(&mut backend);
    assert_eq!(ret, RespFrame::Null(RespNull));
    assert_eq!(ret.encode(), b"_\r\n");
}

#[test]
fn echo_sends_the_message_back() {
    let cmd: Command = request(&[b"ECHO", b"hi"]).try_into().unwrap();
    let mut backend = Backend::new();
    assert_eq!(cmd.execute(&mut backend), RespFrame::BulkString(b"hi".into()));

    let echo: Echo = request(&[b"echo", b"hi"]).try_into().unwrap();
    assert_eq!(echo.message, "hi");
}

#[test]
fn set_then_get_gives_the_last_value() {
    let mut backend = Backend::new();
    let set: SetValue = request(&[b"set", b"k", b"one"]).try_into().unwrap();
    assert_eq!(set.execute(&mut backend), resp_ok());
    let cmd: Command = RespFrame::Array(RespArray::new(vec![
        RespFrame::BulkString(b"SET".into()),
        RespFrame::BulkString(b"k".into()),
        RespFrame::Integer(2),
    ]))
    .try_into()
    .unwrap();
    assert_eq!(cmd.execute(&mut backend), resp_ok());
    let get: Get = request(&[b"get", b"k"]).try_into().unwrap();
    assert_eq!(get.execute(&mut backend), RespFrame::Integer(2));
    let other = Get {
        key: "other".to_string(),
    };
    assert_eq!(other.execute(&mut backend), RespFrame::Null(RespNull));
}

#[test]
fn command_names_are_read_in_any_case() {
    for name in [&b"hget"[..], b"HGET", b"HgEt"] {
        let cmd: Command = request(&[name, b"map", b"f"]).try_into().unwrap();
        assert!(matches!(cmd, Command::HGet(_)));
    }
}

#[test]
fn unknown_names_are_no_error() {
    let cmd: Command = request(&[b"ping"]).try_into().unwrap();
    assert!(matches!(cmd, Command::Unrecognized(_)));
    let mut backend = Backend::new();
    assert_eq!(cmd.execute(&mut backend), resp_ok());
    assert_eq!(resp_ok().encode(), b"+OK\r\n");
}

#[test]
fn a_command_is_an_array_that_starts_with_a_bulk_string() {
    let err = Command::try_from(RespFrame::Integer(1)).unwrap_err();
    assert_eq!(err, CommandError::InvalidCommand);
    let err = Command::try_from(RespArray::new(vec![])).unwrap_err();
    assert_eq!(err, CommandError::InvalidCommand);
    let err = Command::try_from(RespArray::new(vec![RespFrame::Integer(1)])).unwrap_err();
    assert_eq!(err, CommandError::InvalidCommand);
}

#[test]
fn a_wrong_number_of_arguments_is_an_invalid_command() {
    assert_eq!(
        Command::try_from(request(&[b"get"])).unwrap_err(),
        CommandError::InvalidCommand
    );
    assert_eq!(
        Command::try_from(request(&[b"get", b"a", b"b"])).unwrap_err(),
        CommandError::InvalidCommand
    );
    assert_eq!(
        Command::try_from(request(&[b"hset", b"map", b"f"])).unwrap_err(),
        CommandError::InvalidCommand
    );
    assert_eq!(
        Command::try_from(request(&[b"hmget", b"map"])).unwrap_err(),
        CommandError::InvalidCommand
    );
    assert_eq!(
        Get::try_from(request(&[b"set", b"a"])).unwrap_err(),
        CommandError::InvalidCommand
    );
}

#[test]
fn an_argument_of_the_wrong_type_is_refused() {
    let frames = RespArray::new(vec![
        RespFrame::BulkString(b"get".into()),
        RespFrame::Integer(1),
    ]);
    assert_eq!(Command::try_from(frames).unwrap_err(), CommandError::InvalidArgument);
    let frames = RespArray::new(vec![
        RespFrame::BulkString(b"hget".into()),
        RespFrame::BulkString(b"map".into()),
        RespFrame::Null(RespNull),
    ]);
    assert_eq!(Command::try_from(frames).unwrap_err(), CommandError::InvalidArgument);
    let frames = RespArray::new(vec![
        RespFrame::BulkString(b"echo".into()),
        RespFrame::Integer(1),
    ]);
    assert_eq!(Command::try_from(frames).unwrap_err(), CommandError::InvalidCommand);
    let frames = RespArray::new(vec![
        RespFrame::BulkString(b"sismember".into()),
        RespFrame::Integer(1),
        RespFrame::BulkString(b"m".into()),
    ]);
    assert_eq!(Command::try_from(frames).unwrap_err(), CommandError::InvalidCommand);
}

#[test]
fn a_text_argument_must_be_utf8() {
    assert_eq!(
        Command::try_from(request(&[b"get", b"\xff\xfe"])).unwrap_err(),
        CommandError::Utf8Error
    );
    assert_eq!(
        Command::try_from(request(&[b"hmget", b"map", b"ok", b"\xc3\x28"])).unwrap_err(),
        CommandError::Utf8Error
    );
    // a text that is not ASCII is kept byte for byte
    let get: Get = request(&[b"get", "gr\u{fc}\u{df}e".as_bytes()]).try_into().unwrap();
    assert_eq!(get.key, "gr\u{fc}\u{df}e");
}

#[test]
fn a_decode_error_is_a_command_error() {
    assert_eq!(
        CommandError::from(RespError::NotComplete),
        CommandError::RespError(RespError::NotComplete)
    );
}

#[test]
fn hmget_gives_null_for_a_missing_field() {
    let mut backend = Backend::new();
    HSet {
        key: "map".to_string(),
        field: "a".to_string(),
        value: RespFrame::Integer(1),
    }
    .execute(&mut backend);
    let cmd: HMGet = request(&[b"hmget", b"map", b"a", b"b", b"a"]).try_into().unwrap();
    assert_eq!(cmd.key, "map");
    assert_eq!(cmd.fields, vec!["a", "b", "a"]);
    assert_eq!(
        cmd.execute(&mut backend),
        RespFrame::Array(RespArray::new(vec![
            RespFrame::Integer(1),
            RespFrame::Null(RespNull),
            RespFrame::Integer(1),
        ]))
    );
}

#[test]
fn hgetall_of_an_absent_key_is_an_empty_array() {
    let mut backend = Backend::new();
    let cmd: Command = request(&[b"hgetall", b"nothing"]).try_into().unwrap();
    assert_eq!(
        cmd.execute(&mut backend),
        RespFrame::Array(RespArray::new(vec![]))
    );
}

#[test]
fn hgetall_is_in_field_order_whatever_the_order_of_the_writes() {
    let fields = ["b", "a", "c", "ab"];
    let mut forward = Backend::new();
    for field in fields {
        HSet {
            key: "map".to_string(),
            field: field.to_string(),
            value: RespFrame::BulkString(field.as_bytes().into()),
        }
        .execute(&mut forward);
    }
    let mut backward = Backend::new();
    for field in fields.iter().rev() {
        HSet {
            key: "map".to_string(),
            field: field.to_string(),
            value: RespFrame::BulkString(field.as_bytes().into()),
        }
        .execute(&mut backward);
    }
    let ask = |backend: &mut Backend| {
        HGetAll {
            key: "map".to_string(),
            sort: true,
        }
        .execute(backend)
    };
    let expected = RespFrame::Array(RespArray::new(
        ["a", "a", "ab", "ab", "b", "b", "c", "c"]
            .iter()
            .map(|s| RespFrame::BulkString(s.as_bytes().into()))
            .collect(),
    ));
    assert_eq!(ask(&mut forward), expected);
    assert_eq!(ask(&mut backward), expected);
}

#[test]
fn sismember_tells_whether_the_member_was_added() {
    // The membership test is a real one: a member that was never added is
    // answered with 0.
    let mut backend = Backend::new();
    let ask: SisMember = request(&[b"sismember", b"s", b"m"]).try_into().unwrap();
    assert_eq!(ask.execute(&mut backend), RespFrame::Integer(0));
    let add: AddMember = request(&[b"addmember", b"s", b"m"]).try_into().unwrap();
    assert_eq!(add.execute(&mut backend), RespFrame::Integer(1));
    let again = AddMember {
        key: "s".to_string(),
        member: "m".to_string(),
    };
    assert_eq!(again.execute(&mut backend), RespFrame::Integer(1));
    let ask = SisMember {
        key: "s".to_string(),
        member: "m".to_string(),
    };
    assert_eq!(ask.execute(&mut backend), RespFrame::Integer(1));
    let other = SisMember {
        key: "s".to_string(),
        member: "n".to_string(),
    };
    assert_eq!(other.execute(&mut backend), RespFrame::Integer(0));
    let elsewhere = SisMember {
        key: "t".to_string(),
        member: "m".to_string(),
    };
    assert_eq!(elsewhere.execute(&mut backend), RespFrame::Integer(0));
}

#[test]
fn the_three_tables_do_not_share_keys() {
    let mut backend = Backend::new();
    backend.set("k".to_string(), RespFrame::Integer(1));
    backend.hset("k".to_string(), "f".to_string(), RespFrame::Integer(2));
    backend.add_member("k".to_string(), "m".to_string());
    assert_eq!(backend.get("k"), Some(RespFrame::Integer(1)));
    assert_eq!(backend.hget("k", "f"), Some(RespFrame::Integer(2)));
    assert_eq!(backend.hget("k", "m"), None);
    assert_eq!(backend.sis_member("k", "m"), RespFrame::Integer(1));
    assert_eq!(backend.sis_member("k", "f"), RespFrame::Integer(0));
}

#[test]
fn a_key_is_always_in_the_same_shard() {
    assert_eq!(shard_of("", 16), 0xcbf29ce484222325u64 as usize % 16);
    assert_eq!(shard_of("a", 1000), (0xaf63dc4c8601ec8cu64 % 1000) as usize);
    assert_eq!(shard_of("foo", 16), (0xdcb27518fed9d577u64 % 16) as usize);
    assert_eq!(shard_of("foo", 1), 0);
    assert_eq!(shard_of("foo", 0), 0);
    for shards in 1..40 {
        assert!(shard_of("hello", shards) < shards);
        assert_eq!(shard_of("hello", shards), shard_of("hello", shards));
    }
}

#[test]
fn a_command_names_its_key() {
    let cmd: Command = request(&[b"hset", b"map", b"f", b"v"]).try_into().unwrap();
    assert_eq!(cmd.key(), Some(&"map".to_string()));
    let cmd: Command = request(&[b"echo", b"hi"]).try_into().unwrap();
    assert_eq!(cmd.key(), None);
    let cmd: Command = request(&[b"ping"]).try_into().unwrap();
    assert_eq!(cmd.key(), None);
}

#[test]
fn commands_on_different_keys_do_not_see_each_other() {
    let run = |order: [usize; 2]| {
        let mut backend = Backend::new();
        for which in order {
            if which == 0 {
                backend.hset("a".to_string(), "f".to_string(), RespFrame::Integer(1));
            } else {
                backend.hset("b".to_string(), "f".to_string(), RespFrame::Integer(2));
            }
        }
        (backend.hget("a", "f"), backend.hget("b", "f"))
    };
    assert_eq!(run([0, 1]), run([1, 0]));
    assert_eq!(run([0, 1]), (Some(RespFrame::Integer(1)), Some(RespFrame::Integer(2))));
}
