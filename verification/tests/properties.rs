use bytes::BytesMut;
use resp_codec::Array;
use resp_codec::BulkString;
use resp_codec::Null;
use resp_codec::NullArray;
use resp_codec::NullBulkString;
use resp_codec::RespDecode;
use resp_codec::RespEncode;
use resp_codec::RespError;
use resp_codec::RespFrame;
use resp_codec::RespMap;
use resp_codec::RespSet;
use resp_codec::SimpleError;
use resp_codec::SimpleString;

fn text(s: &str) -> RespFrame {
    RespFrame::SimpleString(SimpleString::from(s))
}

fn bulk(s: &str) -> RespFrame {
    RespFrame::BulkString(BulkString::from(s))
}

fn samples() -> Vec<RespFrame> {
    vec![
        text("OK"),
        text(""),
        text("ends with a carriage return\r"),
        text("h\u{e9}llo"),
        RespFrame::Error(SimpleError::from("ERR unknown command")),
        bulk("hello"),
        bulk(""),
        RespFrame::BulkString(BulkString::new(vec![13, 10, 0, 255])),
        RespFrame::NullBulkString(NullBulkString),
        RespFrame::NullArray(NullArray),
        RespFrame::Null(Null),
        RespFrame::Boolean(true),
        RespFrame::Boolean(false),
        RespFrame::Double("+3.147".to_string()),
        RespFrame::Double("-1e+9".to_string()),
        Array::new(Vec::new()).into(),
        Array::new(vec![text("a")]).into(),
        Array::new(vec![bulk("get"), bulk("hello")]).into(),
        Array::new(vec![text("a"), Array::new(Vec::new()).into()]).into(),
        RespSet::new(vec![Array::new(vec![Array::new(Vec::new()).into()]).into()]).into(),
        Array::new(vec![Array::new(Vec::new()).into(), text("a")]).into(),
        RespSet::new(Vec::new()).into(),
        RespSet::new(vec![text("b"), text("a"), text("b")]).into(),
        RespMap::new(Vec::new()).into(),
        RespMap::new(vec![
            ("k2".to_string(), bulk("v2")),
            ("k1".to_string(), RespSet::new(vec![text("x")]).into()),
        ])
        .into(),
        Array::new(vec![
            RespMap::new(vec![("k".to_string(), RespFrame::Null(Null))]).into(),
            RespSet::new(vec![RespFrame::Boolean(true), bulk("z")]).into(),
            RespFrame::NullArray(NullArray),
        ])
        .into(),
    ]
}

fn same(frame: &RespFrame) -> RespFrame {
    let mut buf = BytesMut::new();
    buf.extend_from_slice(&encoded(frame));
    RespFrame::decode(&mut buf).unwrap()
}

fn encoded(frame: &RespFrame) -> Vec<u8> {
    match frame {
        RespFrame::SimpleString(s) => SimpleString::new(s.0.clone()).encode(),
        RespFrame::Error(s) => SimpleError::new(s.0.clone()).encode(),
        RespFrame::BulkError(s) => resp_codec::BulkError::new(s.0.clone()).encode(),
        RespFrame::Integer(n) => n.encode(),
        RespFrame::BulkString(b) => BulkString::new(b.0.clone()).encode(),
        RespFrame::NullBulkString(_) => NullBulkString.encode(),
        RespFrame::Array(a) => {
            let mut out = format!("*{}\r\n", a.0.len()).into_bytes();
            for item in a.0.iter() {
                out.extend_from_slice(&encoded(item));
            }
            out
        }
        RespFrame::NullArray(_) => NullArray.encode(),
        RespFrame::Null(_) => Null.encode(),
        RespFrame::Boolean(b) => b.encode(),
        RespFrame::Double(t) => format!(",{}\r\n", t).into_bytes(),
        RespFrame::RespMap(m) => {
            let mut out = format!("%{}\r\n", m.len()).into_bytes();
            for i in 0..m.len() {
                out.extend_from_slice(&SimpleString::new(m.key_at(i).clone()).encode());
                out.extend_from_slice(&encoded(m.value_at(i)));
            }
            out
        }
        RespFrame::RespSet(s) => {
            let mut out = format!("~{}\r\n", s.0.len()).into_bytes();
            for item in s.0.iter() {
                out.extend_from_slice(&encoded(item));
            }
            out
        }
    }
}

#[test]
fn round_trip() {
    for frame in samples() {
        let copy = same(&frame);
        let bytes = frame.encode();
        let mut buf = BytesMut::new();
        buf.extend_from_slice(&bytes);
        let decoded = RespFrame::decode(&mut buf).unwrap();
        assert_eq!(decoded, copy);
        assert!(buf.is_empty());
        assert_eq!(decoded.encode(), bytes);
    }
}

#[test]
fn round_trip_in_a_stream() {
    let mut buf = BytesMut::new();
    let frames = samples();
    for frame in frames.iter() {
        buf.extend_from_slice(&encoded(frame));
    }
    for frame in frames.iter() {
        assert_eq!(&RespFrame::decode(&mut buf).unwrap(), frame);
    }
    assert!(buf.is_empty());
}

#[test]
fn integer_and_bulk_error_do_not_read_back() {
    let mut buf = BytesMut::new();
    buf.extend_from_slice(&RespFrame::Integer(42).encode());
    assert_eq!(RespFrame::decode(&mut buf).unwrap(), text("42"));
    let mut buf = BytesMut::new();
    buf.extend_from_slice(&RespFrame::Integer(-42).encode());
    assert_eq!(
        RespFrame::decode(&mut buf).unwrap(),
        RespFrame::Error(SimpleError::from("42"))
    );
    let mut buf = BytesMut::new();
    buf.extend_from_slice(&RespFrame::BulkError(resp_codec::BulkError::from("oops")).encode());
    assert_eq!(
        RespFrame::decode(&mut buf).unwrap(),
        RespFrame::BulkError(resp_codec::BulkError::from("4"))
    );
    assert_eq!(&buf[..], b"oops\r\n");
}

#[test]
fn text_with_a_line_terminator_does_not_read_back() {
    let mut buf = BytesMut::new();
    buf.extend_from_slice(&text("a\r\nb").encode());
    assert_eq!(RespFrame::decode(&mut buf).unwrap(), text("a"));
    assert_eq!(&buf[..], b"b\r\n");
}

#[test]
fn incremental_completion() {
    for frame in samples() {
        let bytes = encoded(&frame);
        let mut buf = BytesMut::new();
        for cut in 1..bytes.len() {
            buf.clear();
            buf.extend_from_slice(&bytes[..cut]);
            assert_eq!(RespFrame::decode(&mut buf), Err(RespError::NotComplete));
            assert_eq!(&buf[..], &bytes[..cut]);
            buf.extend_from_slice(&bytes[cut..]);
            assert_eq!(RespFrame::decode(&mut buf).unwrap(), frame);
            assert!(buf.is_empty());
        }
    }
}

#[test]
fn incremental_completion_byte_by_byte() {
    let frame: RespFrame = Array::new(vec![
        bulk("set"),
        bulk("key"),
        RespMap::new(vec![("k".to_string(), bulk("v"))]).into(),
    ])
    .into();
    let bytes = encoded(&frame);
    let mut buf = BytesMut::new();
    for (i, byte) in bytes.iter().enumerate() {
        buf.extend_from_slice(&[*byte]);
        if i + 1 < bytes.len() {
            assert_eq!(RespFrame::decode(&mut buf), Err(RespError::NotComplete));
            assert_eq!(&buf[..], &bytes[..i + 1]);
        }
    }
    assert_eq!(RespFrame::decode(&mut buf).unwrap(), frame);
    assert!(buf.is_empty());
}

#[test]
fn part_of_a_frame_yields_no_frame() {
    for frame in samples() {
        let bytes = encoded(&frame);
        for cut in 0..bytes.len() {
            let mut buf = BytesMut::new();
            buf.extend_from_slice(&bytes[..cut]);
            assert!(RespFrame::decode(&mut buf).is_err());
            assert_eq!(&buf[..], &bytes[..cut]);
        }
    }
}

#[test]
fn more_bytes_change_no_frame() {
    for frame in samples() {
        let bytes = encoded(&frame);
        let mut buf = BytesMut::new();
        buf.extend_from_slice(&bytes);
        buf.extend_from_slice(b"+more\r\n");
        assert_eq!(RespFrame::decode(&mut buf).unwrap(), frame);
        assert_eq!(&buf[..], b"+more\r\n");
    }
}

#[test]
fn container_atomicity() {
    for bytes in [
        &b"*3\r\n+a\r\n+b\r\n"[..],
        &b"~2\r\n:1\r\n"[..],
        &b"%2\r\n+k\r\n+v\r\n+l\r\n"[..],
        &b"*1\r\n"[..],
        &b"*2\r\n$3\r\nget\r\n"[..],
        &b"~3\r\n$1\r\na\r\n$1\r\nb\r\n"[..],
        &b"%2\r\n+k\r\n$1\r\nv\r\n"[..],
        &b"*2\r\n*2\r\n+a\r\n+b\r\n"[..],
    ] {
        let mut buf = BytesMut::new();
        buf.extend_from_slice(bytes);
        assert_eq!(RespFrame::decode(&mut buf), Err(RespError::NotComplete));
        assert_eq!(&buf[..], bytes);
    }
}

#[test]
fn failure_changes_no_buffer() {
    for bytes in [
        &b""[..],
        &b"+"[..],
        &b"+\xff\r\n"[..],
        &b":x\r\n"[..],
        &b"#?\r\n"[..],
        &b"*2\r\n$1\r\na\r\n"[..],
        &b"*1\r\n\r\n"[..],
        &b"*2\r\n+a\r\n?\r\n"[..],
        &b"%1\r\n+k\r\n:\r\n"[..],
        &b"@\r\n"[..],
    ] {
        let mut buf = BytesMut::new();
        buf.extend_from_slice(bytes);
        assert!(RespFrame::decode(&mut buf).is_err());
        assert_eq!(&buf[..], bytes);
    }
}
