use bytes::BytesMut;
use resp_codec::Array;
use resp_codec::BulkString;
use resp_codec::RespDecode;
use resp_codec::RespError;
use resp_codec::RespFrame;
use resp_codec::RespSet;
use resp_codec::SimpleError;
use resp_codec::SimpleString;

#[test]
fn test_simple_string_decode() {
    let mut buf = BytesMut::new();
    buf.extend_from_slice(b"+OK\r\n");

    let frame = SimpleString::decode(&mut buf).unwrap();
    assert_eq!(frame, SimpleString::new("OK".to_string()));

    buf.extend_from_slice(b"+hello\r");
    let ret = SimpleString::decode(&mut buf);
    assert_eq!(ret, Err(RespError::NotComplete));

    buf.extend_from_slice(b"\n");
    let frame = SimpleString::decode(&mut buf).unwrap();
    assert_eq!(frame, SimpleString::new("hello".to_string()));
}

#[test]
fn test_simple_error_decode() {
    let mut buf = BytesMut::new();
    buf.extend_from_slice(b"-ERR unknown command 'hello'\r\n");

    let frame = SimpleError::decode(&mut buf).unwrap();
    assert_eq!(
        frame,
        SimpleError::new("ERR unknown command 'hello'".to_string())
    );

    buf.extend_from_slice(b"-ERR unknown command 'hello'");
    let ret = SimpleError::decode(&mut buf);
    assert_eq!(ret, Err(RespError::NotComplete));
}

#[test]
fn test_f64_decode() {
    let mut buf = BytesMut::new();
    buf.extend_from_slice(b",3.14768\r\n");

    let frame = match RespFrame::decode(&mut buf).unwrap() {
        RespFrame::Double(numeral) => numeral.parse::<f64>().unwrap(),
        other => panic!("unexpected {:?}", other),
    };
    assert_eq!(frame, 3.14768);

    buf.extend_from_slice(b",3.14768");
    let ret = RespFrame::decode(&mut buf);
    assert_eq!(ret, Err(RespError::NotComplete));
}

#[test]
fn test_array_decode() {
    let mut buf = BytesMut::new();
    buf.extend_from_slice(b"*3\r\n$5\r\nhello\r\n$3\r\nfoo\r\n$3\r\nbar\r\n");

    let frame = Array::decode(&mut buf).unwrap();
    assert_eq!(
        frame,
        Array::new(vec![
            RespFrame::BulkString(BulkString::from("hello")),
            RespFrame::BulkString(BulkString::from("foo")),
            RespFrame::BulkString(BulkString::from("bar"))
        ])
    );
}

#[test]
fn test_set_decode() {
    let mut buf = BytesMut::new();
    buf.extend_from_slice(b"~2\r\n$3\r\nfoo\r\n$3\r\nbar\r\n");

    let frame = RespSet::decode(&mut buf).unwrap();
    assert_eq!(
        frame,
        RespSet::new(vec![
            RespFrame::BulkString(BulkString::from("foo")),
            RespFrame::BulkString(BulkString::from("bar"))
        ])
    );
}

fn buffer(bytes: &[u8]) -> BytesMut {
    let mut buf = BytesMut::new();
    buf.extend_from_slice(bytes);
    buf
}

fn bulk(text: &str) -> RespFrame {
    RespFrame::BulkString(BulkString::from(text))
}

#[test]
fn decode_simple_string_frame() {
    let mut buf = buffer(b"+OK\r\n");
    let frame = RespFrame::decode(&mut buf).unwrap();
    assert_eq!(frame, RespFrame::SimpleString(SimpleString::from("OK")));
    assert!(buf.is_empty());
}

#[test]
fn decode_null_bulk_string_before_bulk_string() {
    let mut buf = buffer(b"$-1\r\n");
    let frame = RespFrame::decode(&mut buf).unwrap();
    assert_eq!(frame, RespFrame::NullBulkString(resp_codec::NullBulkString));
    assert!(buf.is_empty());
}

#[test]
fn decode_null_array_before_array() {
    let mut buf = buffer(b"*-1\r\nrest");
    let frame = RespFrame::decode(&mut buf).unwrap();
    assert_eq!(frame, RespFrame::NullArray(resp_codec::NullArray));
    assert_eq!(&buf[..], b"rest");
}

#[test]
fn decode_array_of_bulk_strings() {
    let mut buf = buffer(b"*2\r\n$3\r\nget\r\n$5\r\nhello\r\n");
    let frame = RespFrame::decode(&mut buf).unwrap();
    assert_eq!(
        frame,
        RespFrame::Array(Array::new(vec![bulk("get"), bulk("hello")]))
    );
    assert!(buf.is_empty());
}

#[test]
fn decode_set_keeps_order_and_repeats() {
    let mut buf = buffer(b"~2\r\n$3\r\nfoo\r\n$3\r\nbar\r\n");
    let frame = RespFrame::decode(&mut buf).unwrap();
    assert_eq!(
        frame,
        RespFrame::RespSet(RespSet::new(vec![bulk("foo"), bulk("bar")]))
    );
    let mut buf = buffer(b"~3\r\n+b\r\n+a\r\n+b\r\n");
    let frame = RespSet::decode(&mut buf).unwrap();
    assert_eq!(
        frame,
        RespSet::new(vec![
            SimpleString::from("b").into(),
            SimpleString::from("a").into(),
            SimpleString::from("b").into()
        ])
    );
}

#[test]
fn decode_in_two_parts() {
    let mut buf = buffer(b"+hel");
    assert_eq!(RespFrame::decode(&mut buf), Err(RespError::NotComplete));
    assert_eq!(&buf[..], b"+hel");
    buf.extend_from_slice(b"lo\r\n");
    let frame = RespFrame::decode(&mut buf).unwrap();
    assert_eq!(frame, RespFrame::SimpleString(SimpleString::from("hello")));
    assert!(buf.is_empty());
}

#[test]
fn decode_takes_one_frame_and_leaves_the_rest() {
    let mut buf = buffer(b"+a\r\n:12\r\n#f\r\n");
    assert_eq!(
        RespFrame::decode(&mut buf).unwrap(),
        RespFrame::SimpleString(SimpleString::from("a"))
    );
    assert_eq!(&buf[..], b":12\r\n#f\r\n");
    assert_eq!(
        RespFrame::decode(&mut buf).unwrap(),
        RespFrame::Integer(12)
    );
    assert_eq!(&buf[..], b"#f\r\n");
    assert_eq!(
        RespFrame::decode(&mut buf).unwrap(),
        RespFrame::Boolean(false)
    );
    assert!(buf.is_empty());
}

#[test]
fn decode_empty_buffer_is_invalid() {
    let mut buf = BytesMut::new();
    let err = RespFrame::decode(&mut buf).unwrap_err();
    assert_eq!(err, RespError::InvalidFrame("invalid frame type".to_string()));
    assert_eq!(err.kind(), resp_codec::ErrorKind::InvalidFrame);
    assert!(!err.is_not_complete());
}

#[test]
fn decode_unknown_first_byte_is_invalid() {
    let mut buf = buffer(b"?what\r\n");
    let err = RespFrame::decode(&mut buf).unwrap_err();
    assert_eq!(err.kind(), resp_codec::ErrorKind::InvalidFrame);
    assert_eq!(&buf[..], b"?what\r\n");
}

#[test]
fn decode_other_type_is_invalid_frame_type() {
    let mut buf = buffer(b"-ERR\r\n");
    let err = SimpleString::decode(&mut buf).unwrap_err();
    assert_eq!(err.kind(), resp_codec::ErrorKind::InvalidFrameType);
    assert_eq!(&buf[..], b"-ERR\r\n");
    let mut buf = buffer(b"+OK\r\n");
    let err = resp_codec::Null::decode(&mut buf).unwrap_err();
    assert_eq!(err.kind(), resp_codec::ErrorKind::InvalidFrameType);
    assert_eq!(&buf[..], b"+OK\r\n");
}

#[test]
fn decode_short_line_is_not_complete_before_the_type_is_looked_at() {
    let mut buf = buffer(b"-E");
    assert_eq!(SimpleString::decode(&mut buf), Err(RespError::NotComplete));
}

#[test]
fn decode_fixed_frame_tells_from_the_bytes_it_holds() {
    let mut buf = buffer(b"+");
    assert_eq!(
        resp_codec::NullArray::decode(&mut buf).unwrap_err().kind(),
        resp_codec::ErrorKind::InvalidFrameType
    );
    let mut buf = buffer(b"#x");
    assert_eq!(
        bool::decode(&mut buf).unwrap_err().kind(),
        resp_codec::ErrorKind::InvalidFrameType
    );
    for bytes in [&b"#"[..], &b"#t"[..], &b"#f"[..], &b"#f\r"[..], &b"_"[..], &b"_\r"[..]] {
        let mut buf = buffer(bytes);
        assert_eq!(RespFrame::decode(&mut buf), Err(RespError::NotComplete));
        assert_eq!(&buf[..], bytes);
    }
}

#[test]
fn decode_integer() {
    let mut buf = buffer(b":+42\r\n:-42\r\n:7\r\n:-9223372036854775808\r\n");
    assert_eq!(i64::decode(&mut buf), Ok(42));
    assert_eq!(i64::decode(&mut buf), Ok(-42));
    assert_eq!(i64::decode(&mut buf), Ok(7));
    assert_eq!(i64::decode(&mut buf), Ok(i64::MIN));
    assert!(buf.is_empty());
}

#[test]
fn decode_integer_that_is_no_numeral() {
    for bytes in [
        &b":abc\r\n"[..],
        &b":\r\n"[..],
        &b":+\r\n"[..],
        &b":1 \r\n"[..],
        &b":9223372036854775808\r\n"[..],
        &b":\xff\r\n"[..],
    ] {
        let mut buf = buffer(bytes);
        let err = RespFrame::decode(&mut buf).unwrap_err();
        assert_eq!(err.kind(), resp_codec::ErrorKind::ParseIntError);
        assert_eq!(&buf[..], bytes);
    }
}

#[test]
fn decode_boolean() {
    let mut buf = buffer(b"#t\r\n#f\r\n");
    assert_eq!(bool::decode(&mut buf), Ok(true));
    assert_eq!(bool::decode(&mut buf), Ok(false));
    let mut buf = buffer(b"#x\r\n");
    let err = RespFrame::decode(&mut buf).unwrap_err();
    assert_eq!(err.kind(), resp_codec::ErrorKind::InvalidFrameType);
    assert_eq!(&buf[..], b"#x\r\n");
    let mut buf = buffer(b"#t\r");
    assert_eq!(RespFrame::decode(&mut buf), Err(RespError::NotComplete));
}

#[test]
fn decode_null() {
    let mut buf = buffer(b"_\r\n");
    assert_eq!(
        RespFrame::decode(&mut buf).unwrap(),
        RespFrame::Null(resp_codec::Null)
    );
    let mut buf = buffer(b"_x\r\n");
    let err = RespFrame::decode(&mut buf).unwrap_err();
    assert_eq!(err.kind(), resp_codec::ErrorKind::InvalidFrameType);
}

#[test]
fn decode_double_as_its_numeral() {
    let mut buf = buffer(b",3.14768\r\n");
    let frame = RespFrame::decode(&mut buf).unwrap();
    assert_eq!(frame, RespFrame::Double("3.14768".to_string()));
    match frame {
        RespFrame::Double(text) => assert_eq!(text.parse::<f64>().unwrap(), 3.14768),
        other => panic!("unexpected {:?}", other),
    }
    buf.extend_from_slice(b",3.14768");
    assert_eq!(RespFrame::decode(&mut buf), Err(RespError::NotComplete));
}

#[test]
fn decode_double_replaces_what_is_not_text() {
    let mut buf = buffer(b",1\xff2\r\n");
    let frame = RespFrame::decode(&mut buf).unwrap();
    assert_eq!(frame, RespFrame::Double("1\u{fffd}2".to_string()));
}

#[test]
fn decode_bulk_error_as_one_line() {
    let mut buf = buffer(b"!13\r\nError message\r\n");
    let frame = RespFrame::decode(&mut buf).unwrap();
    assert_eq!(frame, RespFrame::BulkError(resp_codec::BulkError::from("13")));
    assert_eq!(&buf[..], b"Error message\r\n");
}

#[test]
fn decode_text_that_is_not_utf8() {
    let mut buf = buffer(b"+\xff\xfe\r\n");
    let err = RespFrame::decode(&mut buf).unwrap_err();
    assert_eq!(err.kind(), resp_codec::ErrorKind::Utf8Error);
    assert_eq!(&buf[..], b"+\xff\xfe\r\n");
    let mut buf = buffer(b"-\xc3\r\n");
    assert_eq!(
        SimpleError::decode(&mut buf).unwrap_err().kind(),
        resp_codec::ErrorKind::Utf8Error
    );
}

#[test]
fn decode_text_of_many_bytes_a_character() {
    let mut buf = buffer("+h\u{e9}llo \u{4e16}\r\n".as_bytes());
    let frame = SimpleString::decode(&mut buf).unwrap();
    assert_eq!(frame, SimpleString::from("h\u{e9}llo \u{4e16}"));
}

#[test]
fn decode_bulk_string_is_binary_safe() {
    let mut buf = buffer(b"$6\r\n\r\n\x00\xff\r\n\r\n+next\r\n");
    let frame = BulkString::decode(&mut buf).unwrap();
    assert_eq!(frame, BulkString::new(vec![13, 10, 0, 255, 13, 10]));
    assert_eq!(&buf[..], b"+next\r\n");
}

#[test]
fn decode_bulk_string_waits_for_payload_and_terminator() {
    for bytes in [
        &b"$"[..],
        &b"$5"[..],
        &b"$5\r"[..],
        &b"$5\r\n"[..],
        &b"$5\r\nhel"[..],
        &b"$5\r\nhello"[..],
        &b"$5\r\nhello\r"[..],
    ] {
        let mut buf = buffer(bytes);
        assert_eq!(RespFrame::decode(&mut buf), Err(RespError::NotComplete));
        assert_eq!(&buf[..], bytes);
    }
    let mut buf = buffer(b"$5\r\nhello\r\n");
    assert_eq!(RespFrame::decode(&mut buf).unwrap(), bulk("hello"));
}

#[test]
fn decode_bulk_string_of_length_zero() {
    let mut buf = buffer(b"$0\r\n\r\n");
    assert_eq!(
        RespFrame::decode(&mut buf).unwrap(),
        RespFrame::BulkString(BulkString::new(Vec::new()))
    );
    assert!(buf.is_empty());
}

#[test]
fn decode_length_that_is_no_count() {
    for bytes in [
        &b"$abc\r\nxyz\r\n"[..],
        &b"$-2\r\nxyz\r\n"[..],
        &b"$\r\n\r\n"[..],
        &b"*x\r\n+a\r\n"[..],
        &b"~1.5\r\n+a\r\n"[..],
        &b"%-1\r\n+a\r\n"[..],
        &b"$99999999999999999999999999\r\nxyz\r\n"[..],
    ] {
        let mut buf = buffer(bytes);
        let err = RespFrame::decode(&mut buf).unwrap_err();
        assert_eq!(err.kind(), resp_codec::ErrorKind::ParseIntError);
        assert_eq!(&buf[..], bytes);
    }
}

#[test]
fn decode_length_with_plus_sign_and_leading_zeros() {
    let mut buf = buffer(b"$+003\r\nabc\r\n");
    assert_eq!(RespFrame::decode(&mut buf).unwrap(), bulk("abc"));
}

#[test]
fn decode_length_beyond_the_buffer_is_not_complete() {
    let mut buf = buffer(b"$18446744073709551615\r\nabc\r\n");
    let r = RespFrame::decode(&mut buf);
    assert!(matches!(
        r,
        Err(RespError::NotComplete) | Err(RespError::ParseIntError(_))
    ));
    let mut buf = buffer(b"$4294967295\r\nabc\r\n");
    assert_eq!(RespFrame::decode(&mut buf), Err(RespError::NotComplete));
    let mut buf = buffer(b"%4294967295\r\n+a\r\n+b\r\n");
    assert_eq!(RespFrame::decode(&mut buf), Err(RespError::NotComplete));
    assert_eq!(&buf[..], b"%4294967295\r\n+a\r\n+b\r\n");
}

#[test]
fn decode_empty_array() {
    let mut buf = buffer(b"*0\r\n");
    assert_eq!(
        RespFrame::decode(&mut buf).unwrap(),
        RespFrame::Array(Array::new(Vec::new()))
    );
    assert!(buf.is_empty());
    let mut buf = buffer(b"*0\r\n+");
    assert_eq!(
        RespFrame::decode(&mut buf).unwrap(),
        RespFrame::Array(Array::new(Vec::new()))
    );
    assert_eq!(&buf[..], b"+");
    let mut buf = buffer(b"*0\r\n");
    assert_eq!(Array::decode(&mut buf).unwrap(), Array::new(Vec::new()));
}

#[test]
fn decode_array_that_ends_with_an_empty_array() {
    let mut buf = buffer(b"*1\r\n*0\r\n");
    let inner: RespFrame = Array::new(Vec::new()).into();
    assert_eq!(
        RespFrame::decode(&mut buf).unwrap(),
        RespFrame::Array(Array::new(vec![inner]))
    );
    assert!(buf.is_empty());
}

#[test]
fn decode_null_form_waits_only_while_it_cannot_tell() {
    for bytes in [
        &b"*"[..],
        &b"*-"[..],
        &b"*-1"[..],
        &b"*-1\r"[..],
        &b"$"[..],
        &b"$-"[..],
        &b"$-1"[..],
        &b"$-1\r"[..],
    ] {
        let mut buf = buffer(bytes);
        assert_eq!(RespFrame::decode(&mut buf), Err(RespError::NotComplete));
        assert_eq!(&buf[..], bytes);
    }
    let mut buf = buffer(b"*-2\r\n");
    assert_eq!(
        RespFrame::decode(&mut buf).unwrap_err().kind(),
        resp_codec::ErrorKind::ParseIntError
    );
    let mut buf = buffer(b"$0\r\n\r\n");
    assert_eq!(
        RespFrame::decode(&mut buf).unwrap(),
        RespFrame::BulkString(BulkString::new(Vec::new()))
    );
}

#[test]
fn decode_counts_a_terminator_right_behind_the_first_line() {
    let bytes = b"*1\r\n\r\n";
    let mut buf = buffer(bytes);
    let err = RespFrame::decode(&mut buf).unwrap_err();
    assert_eq!(err.kind(), resp_codec::ErrorKind::InvalidFrame);
    assert_eq!(&buf[..], bytes);
}

#[test]
fn decode_empty_set_and_map() {
    let mut buf = buffer(b"~0\r\n");
    assert_eq!(
        RespFrame::decode(&mut buf).unwrap(),
        RespFrame::RespSet(RespSet::new(Vec::new()))
    );
    let mut buf = buffer(b"%0\r\n");
    assert_eq!(
        RespFrame::decode(&mut buf).unwrap(),
        RespFrame::RespMap(resp_codec::RespMap::new(Vec::new()))
    );
}

#[test]
fn decode_map() {
    let mut buf = buffer(b"%2\r\n+key2\r\n$6\r\nvalue2\r\n+key1\r\n+value1\r\n");
    let frame = RespFrame::decode(&mut buf).unwrap();
    let expected = resp_codec::RespMap::new(vec![
        (
            "key1".to_string(),
            SimpleString::from("value1").into(),
        ),
        ("key2".to_string(), bulk("value2")),
    ]);
    assert_eq!(frame, RespFrame::RespMap(expected));
    assert!(buf.is_empty());
}

#[test]
fn decode_map_keeps_the_later_of_two_values() {
    let mut buf = buffer(b"%2\r\n+k\r\n:1\r\n+k\r\n:2\r\n");
    let map = resp_codec::RespMap::decode(&mut buf).unwrap();
    assert_eq!(map.len(), 1);
    assert_eq!(map.get("k"), Some(&RespFrame::Integer(2)));
}

#[test]
fn decode_map_key_must_be_a_simple_string() {
    let mut buf = buffer(b"%1\r\n$1\r\nk\r\n:1\r\n");
    let err = RespFrame::decode(&mut buf).unwrap_err();
    assert_eq!(err.kind(), resp_codec::ErrorKind::InvalidFrameType);
    assert_eq!(&buf[..], b"%1\r\n$1\r\nk\r\n:1\r\n");
}

#[test]
fn decode_nested_containers() {
    let bytes = b"*2\r\n~2\r\n*2\r\n:1\r\n_\r\n*-1\r\n#t\r\n";
    let mut buf = buffer(bytes);
    let frame = RespFrame::decode(&mut buf).unwrap();
    let inner: RespFrame = Array::new(vec![1.into(), resp_codec::Null.into()]).into();
    let set: RespFrame = RespSet::new(vec![inner, resp_codec::NullArray.into()]).into();
    assert_eq!(frame, Array::new(vec![set, true.into()]).into());
    assert!(buf.is_empty());
}

#[test]
fn decode_container_waits_for_its_line_terminators() {
    for bytes in [
        &b"*2\r\n"[..],
        &b"*2\r\n+a"[..],
        &b"*2\r\n+a\r\n"[..],
        &b"*2\r\n+a\r\n+b\r"[..],
        &b"~1\r\n$3"[..],
        &b"%1\r\n+k\r\n"[..],
        &b"%1\r\n+k\r\n+v\r"[..],
    ] {
        let mut buf = buffer(bytes);
        assert_eq!(RespFrame::decode(&mut buf), Err(RespError::NotComplete));
        assert_eq!(&buf[..], bytes);
    }
}

#[test]
fn decode_container_whose_element_is_missing_is_not_complete() {
    let bytes = b"*2\r\n$3\r\nget\r\n";
    let mut buf = buffer(bytes);
    assert_eq!(RespFrame::decode(&mut buf), Err(RespError::NotComplete));
    assert_eq!(&buf[..], bytes);
    buf.extend_from_slice(b"$5\r\nhello\r\n");
    let frame = RespFrame::decode(&mut buf).unwrap();
    assert_eq!(frame, Array::new(vec![bulk("get"), bulk("hello")]).into());
    assert!(buf.is_empty());
}

#[test]
fn decode_map_whose_value_is_missing_is_not_complete() {
    for bytes in [
        &b"%1\r\n+k\r\n"[..],
        &b"%2\r\n+k\r\n$1\r\nv\r\n"[..],
        &b"%2\r\n+k\r\n$1\r\nv\r\n+l\r\n"[..],
    ] {
        let mut buf = buffer(bytes);
        assert_eq!(RespFrame::decode(&mut buf), Err(RespError::NotComplete));
        assert_eq!(&buf[..], bytes);
    }
}

#[test]
fn decode_container_with_a_bad_element_changes_nothing() {
    let bytes = b"*2\r\n+a\r\n:x\r\n";
    let mut buf = buffer(bytes);
    let err = Array::decode(&mut buf).unwrap_err();
    assert_eq!(err.kind(), resp_codec::ErrorKind::ParseIntError);
    assert_eq!(&buf[..], bytes);
}

#[test]
fn decode_line_ends_at_the_first_terminator() {
    let mut buf = buffer(b"+a\rb\nc\r\r\nrest");
    let frame = SimpleString::decode(&mut buf).unwrap();
    assert_eq!(frame, SimpleString::from("a\rb\nc\r"));
    assert_eq!(&buf[..], b"rest");
}

#[test]
fn decode_carries_the_error_of_the_parser() {
    let mut buf = buffer(b":abc\r\n");
    assert_eq!(
        RespFrame::decode(&mut buf),
        Err(RespError::ParseIntError("abc".parse::<i64>().unwrap_err()))
    );
    let mut buf = buffer(b":\r\n");
    assert_eq!(
        RespFrame::decode(&mut buf),
        Err(RespError::ParseIntError("".parse::<i64>().unwrap_err()))
    );
    let mut buf = buffer(b":9223372036854775808\r\n");
    assert_eq!(
        RespFrame::decode(&mut buf),
        Err(RespError::ParseIntError(
            "9223372036854775808".parse::<i64>().unwrap_err()
        ))
    );
    let mut buf = buffer(b"$-7\r\n");
    assert_eq!(
        RespFrame::decode(&mut buf),
        Err(RespError::ParseIntError("-7".parse::<usize>().unwrap_err()))
    );
    let mut buf = buffer(b"*\xff\r\n");
    assert_eq!(
        RespFrame::decode(&mut buf),
        Err(RespError::ParseIntError(
            "\u{fffd}".parse::<usize>().unwrap_err()
        ))
    );
}

#[test]
fn decode_carries_the_bytes_that_are_no_text() {
    let mut buf = buffer(b"+a\xffb\r\n");
    match RespFrame::decode(&mut buf) {
        Err(RespError::Utf8Error(e)) => {
            assert_eq!(e.as_bytes(), b"a\xffb");
            assert_eq!(e, String::from_utf8(b"a\xffb".to_vec()).unwrap_err());
        }
        other => panic!("unexpected {:?}", other),
    }
}
