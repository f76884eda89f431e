use resp_codec::Array;
use resp_codec::BulkError;
use resp_codec::BulkString;
use resp_codec::RespFrame;
use resp_codec::RespMap;
use resp_codec::RespSet;
use resp_codec::SimpleError;
use resp_codec::SimpleString;

#[test]
fn constructors_hold_what_they_are_given() {
    assert_eq!(SimpleString::new("OK".to_string()).0, "OK");
    assert_eq!(SimpleError::new("ERR".to_string()).0, "ERR");
    assert_eq!(BulkError::new("ERR".to_string()).0, "ERR");
    assert_eq!(BulkString::new(vec![1, 2, 3]).0, vec![1, 2, 3]);
    assert_eq!(
        Array::new(vec![RespFrame::Integer(1)]).0,
        vec![RespFrame::Integer(1)]
    );
    assert_eq!(
        RespSet::new(vec![RespFrame::Integer(1), RespFrame::Integer(1)]).0,
        vec![RespFrame::Integer(1), RespFrame::Integer(1)]
    );
}

#[test]
fn values_from_text() {
    assert_eq!(SimpleString::from("OK"), SimpleString::new("OK".to_string()));
    assert_eq!(SimpleError::from("ERR"), SimpleError::new("ERR".to_string()));
    assert_eq!(BulkError::from("ERR"), BulkError::new("ERR".to_string()));
    assert_eq!(
        BulkString::from("h\u{e9}"),
        BulkString::new(vec![b'h', 0xc3, 0xa9])
    );
}

#[test]
fn values_read_as_what_they_hold() {
    let s = SimpleString::from("hello");
    assert_eq!(s.len(), 5);
    assert!(s.starts_with("he"));
    let b = BulkString::from("abc");
    assert_eq!(&b[..], b"abc");
    let a = Array::new(vec![RespFrame::Integer(1), RespFrame::Integer(2)]);
    assert_eq!(a.len(), 2);
    assert_eq!(a[1], RespFrame::Integer(2));
    let mut set = RespSet::new(Vec::new());
    set.push(RespFrame::Boolean(true));
    assert_eq!(set.len(), 1);
}

#[test]
fn frames_from_values() {
    let frame: RespFrame = SimpleString::from("a").into();
    assert_eq!(frame, RespFrame::SimpleString(SimpleString::from("a")));
    let frame: RespFrame = SimpleError::from("a").into();
    assert_eq!(frame, RespFrame::Error(SimpleError::from("a")));
    let frame: RespFrame = 5.into();
    assert_eq!(frame, RespFrame::Integer(5));
    let frame: RespFrame = false.into();
    assert_eq!(frame, RespFrame::Boolean(false));
}

#[test]
fn map_holds_its_keys_in_order() {
    let mut map = RespMap::new(Vec::new());
    assert_eq!(map.len(), 0);
    map.insert("b".to_string(), RespFrame::Integer(2));
    map.insert("a".to_string(), RespFrame::Integer(1));
    map.insert("c".to_string(), RespFrame::Integer(3));
    map.insert("ab".to_string(), RespFrame::Integer(4));
    map.insert("".to_string(), RespFrame::Integer(0));
    assert_eq!(map.len(), 5);
    let keys: Vec<&str> = (0..map.len()).map(|i| map.key_at(i).as_str()).collect();
    assert_eq!(keys, vec!["", "a", "ab", "b", "c"]);
    assert_eq!(map.value_at(2), &RespFrame::Integer(4));
}

#[test]
fn map_holds_one_value_for_a_key() {
    let mut map = RespMap::new(vec![
        ("k".to_string(), RespFrame::Integer(1)),
        ("j".to_string(), RespFrame::Integer(7)),
        ("k".to_string(), RespFrame::Integer(2)),
    ]);
    assert_eq!(map.len(), 2);
    assert_eq!(map.get("k"), Some(&RespFrame::Integer(2)));
    map.insert("k".to_string(), RespFrame::Integer(3));
    assert_eq!(map.len(), 2);
    assert_eq!(map.get("k"), Some(&RespFrame::Integer(3)));
    assert_eq!(map.get("j"), Some(&RespFrame::Integer(7)));
    assert_eq!(map.get("x"), None);
}

#[test]
fn map_orders_keys_by_their_bytes() {
    let map = RespMap::new(vec![
        ("\u{e9}".to_string(), RespFrame::Integer(3)),
        ("z".to_string(), RespFrame::Integer(2)),
        ("Z".to_string(), RespFrame::Integer(1)),
    ]);
    let keys: Vec<&str> = (0..map.len()).map(|i| map.key_at(i).as_str()).collect();
    let mut sorted = vec!["\u{e9}", "z", "Z"];
    sorted.sort();
    assert_eq!(keys, sorted);
    assert_eq!(keys, vec!["Z", "z", "\u{e9}"]);
}

#[test]
fn maps_of_the_same_entries_are_equal() {
    let a = RespMap::new(vec![
        ("a".to_string(), RespFrame::Integer(1)),
        ("b".to_string(), RespFrame::Integer(2)),
    ]);
    let b = RespMap::new(vec![
        ("b".to_string(), RespFrame::Integer(2)),
        ("a".to_string(), RespFrame::Integer(1)),
    ]);
    assert_eq!(a, b);
}
