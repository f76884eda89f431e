use bytes::BytesMut;
use resp_codec::cmd::extract_args;
use resp_codec::cmd::validate_command;
use resp_codec::cmd::CommandError;
use resp_codec::cmd::Get;
use resp_codec::cmd::HGet;
use resp_codec::cmd::HGetAll;
use resp_codec::cmd::HSet;
use resp_codec::cmd::SetCommand;
use resp_codec::Array;
use resp_codec::BulkString;
use resp_codec::ErrorKind;
use resp_codec::RespDecode;
use resp_codec::RespFrame;

#[test]
fn test_hget_command() {
    let mut buf = BytesMut::new();
    buf.extend_from_slice(b"*3\r\n$4\r\nhget\r\n$3\r\nkey\r\n$5\r\nfield\r\n");
    let frame = Array::decode(&mut buf).unwrap();

    let hget_command: HGet = HGet::try_from(frame).unwrap();
    assert_eq!(hget_command.key, "key");
    assert_eq!(hget_command.field, "field");
}

#[test]
fn test_hset_command() {
    let mut buf = BytesMut::new();
    buf.extend_from_slice(b"*4\r\n$4\r\nhset\r\n$3\r\nkey\r\n$5\r\nfield\r\n$5\r\nvalue\r\n");
    let frame = Array::decode(&mut buf).unwrap();

    let hset_command: HSet = HSet::try_from(frame).unwrap();

    assert_eq!(hset_command.key, "key");
    assert_eq!(hset_command.field, "field");
    assert_eq!(hset_command.value, RespFrame::BulkString("value".into()));
}

#[test]
fn test_hgetall_command() {
    let mut buf = BytesMut::new();
    buf.extend_from_slice(b"*2\r\n$7\r\nhgetall\r\n$3\r\nkey\r\n");
    let frame = Array::decode(&mut buf).unwrap();

    let hgetall_command = HGetAll::try_from(frame).unwrap();
    assert_eq!(hgetall_command.key, "key");
}

#[test]
fn test_get_command() {
    let mut buf = BytesMut::new();
    buf.extend_from_slice(b"*2\r\n$3\r\nget\r\n$5\r\nhello\r\n");
    let frame = Array::decode(&mut buf).unwrap();
    let get = Get::try_from(frame).unwrap();
    assert_eq!("hello", get.key);
}

#[test]
fn test_set_command() {
    let mut buf = BytesMut::new();
    buf.extend_from_slice(b"*3\r\n$3\r\nset\r\n$5\r\nhello\r\n$5\r\nworld\r\n");
    let frame = Array::decode(&mut buf).unwrap();
    let set = SetCommand::try_from(frame).unwrap();
    assert_eq!("hello", set.key);
    assert_eq!(RespFrame::BulkString("world".into()), set.value);
}

fn bulk(text: &str) -> RespFrame {
    RespFrame::BulkString(BulkString::from(text))
}

#[test]
fn command_name_in_either_case() {
    let value = Array::new(vec![bulk("GeT"), bulk("k")]);
    assert!(validate_command(&value, &["get"], 1).is_ok());
    let get = Get::try_from(value).unwrap();
    assert_eq!(get.key, "k");
}

#[test]
fn command_with_wrong_number_of_frames() {
    let value = Array::new(vec![bulk("get")]);
    assert!(matches!(
        validate_command(&value, &["get"], 1),
        Err(CommandError::InvalidArguments(_))
    ));
    let value = Array::new(vec![bulk("get"), bulk("a"), bulk("b")]);
    assert!(matches!(
        Get::try_from(value),
        Err(CommandError::InvalidArguments(_))
    ));
    let value = Array::new(Vec::new());
    assert!(matches!(
        validate_command(&value, &["get"], usize::MAX),
        Err(CommandError::InvalidArguments(_))
    ));
}

#[test]
fn command_with_another_name() {
    let value = Array::new(vec![bulk("set"), bulk("k")]);
    assert!(matches!(
        Get::try_from(value),
        Err(CommandError::InvalidCommand(_))
    ));
    let value = Array::new(vec![bulk("ge"), bulk("k")]);
    assert!(matches!(
        validate_command(&value, &["get"], 1),
        Err(CommandError::InvalidCommand(_))
    ));
    let value = Array::new(vec![bulk("gets"), bulk("k")]);
    assert!(matches!(
        validate_command(&value, &["get"], 1),
        Err(CommandError::InvalidCommand(_))
    ));
}

#[test]
fn command_name_must_be_a_bulk_string() {
    let value = Array::new(vec![RespFrame::Integer(1), bulk("k")]);
    assert!(matches!(
        validate_command(&value, &["get"], 1),
        Err(CommandError::InvalidArguments(_))
    ));
}

#[test]
fn command_of_two_names() {
    let value = Array::new(vec![bulk("config"), bulk("GET"), bulk("x")]);
    assert!(validate_command(&value, &["config", "get"], 1).is_ok());
    let value = Array::new(vec![bulk("config"), bulk("set"), bulk("x")]);
    assert!(matches!(
        validate_command(&value, &["config", "get"], 1),
        Err(CommandError::InvalidCommand(_))
    ));
}

#[test]
fn key_must_be_a_bulk_string() {
    let value = Array::new(vec![bulk("get"), RespFrame::Integer(1)]);
    assert!(matches!(
        Get::try_from(value),
        Err(CommandError::InvalidArguments(_))
    ));
    let value = Array::new(vec![bulk("hget"), bulk("k"), RespFrame::Boolean(true)]);
    assert!(matches!(
        HGet::try_from(value),
        Err(CommandError::InvalidArguments(_))
    ));
    let value = Array::new(vec![
        bulk("hset"),
        RespFrame::Boolean(true),
        bulk("f"),
        bulk("v"),
    ]);
    assert!(matches!(
        HSet::try_from(value),
        Err(CommandError::InvalidArguments(_))
    ));
}

#[test]
fn key_must_be_text() {
    let key = RespFrame::BulkString(BulkString::new(vec![0xff, 0xfe]));
    let value = Array::new(vec![bulk("get"), key]);
    match Get::try_from(value) {
        Err(CommandError::RespError(e)) => assert_eq!(e.kind(), ErrorKind::Utf8Error),
        other => panic!("unexpected {:?}", other),
    }
    let field = RespFrame::BulkString(BulkString::new(vec![0xc3]));
    let value = Array::new(vec![bulk("hget"), bulk("k"), field]);
    match HGet::try_from(value) {
        Err(CommandError::RespError(e)) => assert_eq!(e.kind(), ErrorKind::Utf8Error),
        other => panic!("unexpected {:?}", other),
    }
}

#[test]
fn each_command_has_its_own_message() {
    let value = Array::new(vec![bulk("get"), RespFrame::Integer(1)]);
    match Get::try_from(value) {
        Err(CommandError::InvalidArguments(m)) => assert_eq!(m, "invalid key"),
        other => panic!("unexpected {:?}", other),
    }
    let value = Array::new(vec![bulk("set"), RespFrame::Integer(1), bulk("v")]);
    match SetCommand::try_from(value) {
        Err(CommandError::InvalidArguments(m)) => assert_eq!(m, "invalid key or value"),
        other => panic!("unexpected {:?}", other),
    }
    let value = Array::new(vec![bulk("hgetall"), RespFrame::Integer(1)]);
    match HGetAll::try_from(value) {
        Err(CommandError::InvalidArguments(m)) => assert_eq!(m, "Invalid key"),
        other => panic!("unexpected {:?}", other),
    }
    let value = Array::new(vec![bulk("hget"), bulk("k"), RespFrame::Integer(1)]);
    match HGet::try_from(value) {
        Err(CommandError::InvalidArguments(m)) => assert_eq!(m, "Invalid key or field"),
        other => panic!("unexpected {:?}", other),
    }
    let value = Array::new(vec![bulk("get")]);
    match Get::try_from(value) {
        Err(CommandError::InvalidArguments(m)) => assert_eq!(
            m,
            " invalid number of arguments for command get, must have exact 1"
        ),
        other => panic!("unexpected {:?}", other),
    }
}

#[test]
fn set_takes_any_frame_as_value() {
    let value = Array::new(vec![bulk("set"), bulk("k"), RespFrame::Integer(5)]);
    let set = SetCommand::try_from(value).unwrap();
    assert_eq!(set.key, "k");
    assert_eq!(set.value, RespFrame::Integer(5));
}

#[test]
fn args_are_the_frames_from_an_index_on() {
    let value = Array::new(vec![bulk("a"), bulk("b"), bulk("c")]);
    assert_eq!(extract_args(value, 1).unwrap(), vec![bulk("b"), bulk("c")]);
    let value = Array::new(vec![bulk("a"), bulk("b")]);
    assert_eq!(extract_args(value, 0).unwrap(), vec![bulk("a"), bulk("b")]);
    let value = Array::new(vec![bulk("a")]);
    assert_eq!(extract_args(value, 1).unwrap(), Vec::new());
    let value = Array::new(vec![bulk("a")]);
    assert_eq!(extract_args(value, 7).unwrap(), Vec::new());
}
