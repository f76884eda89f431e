use resp_codec::Array;
use resp_codec::BulkError;
use resp_codec::BulkString;
use resp_codec::Null;
use resp_codec::NullArray;
use resp_codec::NullBulkString;
use resp_codec::RespEncode;
use resp_codec::RespFrame;
use resp_codec::RespMap;
use resp_codec::RespSet;
use resp_codec::SimpleError;
use resp_codec::SimpleString;

#[test]
fn test_encode_simple_string() {
    let frame: RespFrame = SimpleString::new("OK".to_string()).into();
    let encoded = frame.encode();
    assert_eq!(encoded, b"+OK\r\n".to_vec());
    let frame: RespFrame = SimpleString::new("".to_string()).into();
    let encoded = frame.encode();
    assert_eq!(encoded, b"+\r\n".to_vec());
    let frame: RespFrame = SimpleString::new("+OK".to_string()).into();
    let encoded = frame.encode();
    assert_eq!(encoded, b"++OK\r\n".to_vec());
}

#[test]
fn test_encode_simple_error() {
    let frame: RespFrame = SimpleError::new("Error message".to_string()).into();
    let encoded = frame.encode();
    assert_eq!(encoded, b"-Error message\r\n".to_vec());
}

#[test]
fn test_encode_bulk_error() {
    let err_msg = "Error message";
    let frame: RespFrame = BulkError::new(err_msg.to_string()).into();
    let encoded = frame.encode();
    assert_eq!(
        encoded,
        format!("!{}\r\n{}\r\n", err_msg.len(), err_msg).into_bytes()
    );
}

#[test]
fn test_encode_integer() {
    let frame: RespFrame = 42.into();
    let encoded = frame.encode();
    assert_eq!(encoded, b"+42\r\n".to_vec());
    let frame: RespFrame = (-42).into();
    let encoded = frame.encode();
    assert_eq!(encoded, b"-42\r\n".to_vec());
}

#[test]
fn test_encode_bulk_string() {
    let frame: RespFrame = BulkString::new("Hello, world!".to_string().into_bytes()).into();
    let encoded = frame.encode();
    assert_eq!(encoded, b"$13\r\nHello, world!\r\n".to_vec());
}

#[test]
fn test_encode_null_bulk_string() {
    let frame: RespFrame = NullBulkString.into();
    let encoded = frame.encode();
    assert_eq!(encoded, b"$-1\r\n".to_vec());
}

#[test]
fn test_encode_array() {
    let frame: RespFrame = Array::new(vec![
        SimpleString::new("get".to_string()).into(),
        BulkString::new("hello".to_string().into_bytes()).into(),
    ])
    .into();
    let encoded = frame.encode();
    println!(
        "test encode array {}",
        String::from_utf8(encoded.clone()).unwrap()
    );
    assert_eq!(encoded, b"*2\r\n+get\r\n$5\r\nhello\r\n".to_vec());
}

#[test]
fn test_encode_null_array() {
    let frame: RespFrame = NullArray.into();
    let encoded = frame.encode();
    assert_eq!(encoded, b"*-1\r\n".to_vec());
}

#[test]
fn test_encode_null() {
    let frame: RespFrame = Null.into();
    let encoded = frame.encode();
    assert_eq!(encoded, b"_\r\n".to_vec());
}

#[test]
fn test_encode_boolean() {
    let frame: RespFrame = true.into();
    let encoded = frame.encode();
    assert_eq!(encoded, b"#t\r\n".to_vec());
}

#[test]
fn test_encode_double() {
    let frame = RespFrame::Double(format!("{:+}", 3.147));
    let encoded = frame.encode();
    assert_eq!(encoded, b",+3.147\r\n".to_vec());
}

#[test]
fn test_encode_map() {
    let pairs = vec![
        (
            "key1".to_string(),
            SimpleString::new("value1".to_string()).into(),
        ),
        (
            "key2".to_string(),
            BulkString::new("value2".to_string().into_bytes()).into(),
        ),
    ];
    let frame: RespFrame = RespMap::new(pairs).into();
    let encoded = frame.encode();
    println!(
        "test encode map {}",
        String::from_utf8(encoded.clone()).unwrap()
    );
    assert_eq!(
        encoded,
        b"%2\r\n+key1\r\n+value1\r\n+key2\r\n$6\r\nvalue2\r\n".to_vec()
    );
}

#[test]
fn test_encode_set() {
    let values = vec![
        SimpleString::new("value1".to_string()).into(),
        BulkString::new("value2".to_string().into_bytes()).into(),
    ];

    let frame: RespFrame = RespSet::new(values).into();
    let encoded = frame.encode();
    println!(
        "test encode set {}",
        String::from_utf8(encoded.clone()).unwrap()
    );
    assert_eq!(encoded, b"~2\r\n+value1\r\n$6\r\nvalue2\r\n".to_vec());
}

#[test]
fn encode_boolean_false() {
    assert_eq!(false.encode(), b"#f\r\n".to_vec());
    assert_eq!(RespFrame::Boolean(false).encode(), b"#f\r\n".to_vec());
}

#[test]
fn encode_integer_has_explicit_sign() {
    assert_eq!(0i64.encode(), b"+0\r\n".to_vec());
    assert_eq!(7i64.encode(), b"+7\r\n".to_vec());
    assert_eq!((-1i64).encode(), b"-1\r\n".to_vec());
    assert_eq!(1234567890i64.encode(), b"+1234567890\r\n".to_vec());
    assert_eq!(i64::MAX.encode(), b"+9223372036854775807\r\n".to_vec());
    assert_eq!(i64::MIN.encode(), b"-9223372036854775808\r\n".to_vec());
}

#[test]
fn encode_double_text_is_a_line() {
    let frame = RespFrame::Double("+3.147".to_string());
    assert_eq!(frame.encode(), b",+3.147\r\n".to_vec());
    let frame = RespFrame::Double("-1.5e+9".to_string());
    assert_eq!(frame.encode(), b",-1.5e+9\r\n".to_vec());
}

#[test]
fn encode_bulk_counts_bytes_not_characters() {
    let frame: RespFrame = BulkError::new("h\u{e9}".to_string()).into();
    assert_eq!(frame.encode(), b"!3\r\nh\xc3\xa9\r\n".to_vec());
    let frame: RespFrame = BulkString::new(vec![0u8, 13, 10, 255]).into();
    assert_eq!(frame.encode(), b"$4\r\n\x00\r\n\xff\r\n".to_vec());
    let frame: RespFrame = BulkString::new(Vec::new()).into();
    assert_eq!(frame.encode(), b"$0\r\n\r\n".to_vec());
}

#[test]
fn encode_length_of_many_digits() {
    let payload = vec![b'x'; 1205];
    let encoded = BulkString::new(payload.clone()).encode();
    let mut expected = b"$1205\r\n".to_vec();
    expected.extend_from_slice(&payload);
    expected.extend_from_slice(b"\r\n");
    assert_eq!(encoded, expected);
}

#[test]
fn encode_empty_containers() {
    assert_eq!(Array::new(Vec::new()).encode(), b"*0\r\n".to_vec());
    assert_eq!(RespSet::new(Vec::new()).encode(), b"~0\r\n".to_vec());
    assert_eq!(RespMap::new(Vec::new()).encode(), b"%0\r\n".to_vec());
}

#[test]
fn encode_nested_containers() {
    let inner: RespFrame = Array::new(vec![1.into(), Null.into()]).into();
    let set: RespFrame = RespSet::new(vec![inner, NullArray.into()]).into();
    let frame: RespFrame = Array::new(vec![set, true.into()]).into();
    assert_eq!(
        frame.encode(),
        b"*2\r\n~2\r\n*2\r\n+1\r\n_\r\n*-1\r\n#t\r\n".to_vec()
    );
}

#[test]
fn encode_map_in_key_order() {
    let pairs = vec![
        ("b".to_string(), 2.into()),
        ("a".to_string(), 1.into()),
        ("ab".to_string(), 3.into()),
    ];
    let frame: RespFrame = RespMap::new(pairs).into();
    assert_eq!(
        frame.encode(),
        b"%3\r\n+a\r\n+1\r\n+ab\r\n+3\r\n+b\r\n+2\r\n".to_vec()
    );
}

#[test]
fn encode_each_type_as_its_frame() {
    assert_eq!(
        SimpleString::new("OK".to_string()).encode(),
        b"+OK\r\n".to_vec()
    );
    assert_eq!(
        SimpleError::new("ERR".to_string()).encode(),
        b"-ERR\r\n".to_vec()
    );
    assert_eq!(
        BulkError::new("ERR".to_string()).encode(),
        b"!3\r\nERR\r\n".to_vec()
    );
    assert_eq!(NullBulkString.encode(), b"$-1\r\n".to_vec());
    assert_eq!(NullArray.encode(), b"*-1\r\n".to_vec());
    assert_eq!(Null.encode(), b"_\r\n".to_vec());
    assert_eq!(true.encode(), b"#t\r\n".to_vec());
}
