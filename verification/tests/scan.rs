use resp_codec::scan::cal_total_length;
use resp_codec::scan::extract_fixed_data;
use resp_codec::scan::extract_simple_frame_data;
use resp_codec::scan::find_crlf;
use resp_codec::scan::parse_length;
use resp_codec::scan::starts_with;
use resp_codec::ErrorKind;
use resp_codec::RespError;

#[test]
fn find_crlf_counts_from_one() {
    let buf = b"+a\r\n+b\r\n+c\r\n";
    assert_eq!(find_crlf(buf, 1), Some(2));
    assert_eq!(find_crlf(buf, 2), Some(6));
    assert_eq!(find_crlf(buf, 3), Some(10));
    assert_eq!(find_crlf(buf, 4), None);
    assert_eq!(find_crlf(buf, 0), None);
}

#[test]
fn find_crlf_leaves_out_the_first_byte() {
    assert_eq!(find_crlf(b"\r\n\r\n", 1), Some(2));
    assert_eq!(find_crlf(b"\r\n", 1), None);
    assert_eq!(find_crlf(b"\r\r\n", 1), Some(1));
}

#[test]
fn find_crlf_in_short_buffers() {
    assert_eq!(find_crlf(b"", 1), None);
    assert_eq!(find_crlf(b"\r", 1), None);
    assert_eq!(find_crlf(b"a\r", 1), None);
    assert_eq!(find_crlf(b"a\r\n", 1), Some(1));
    assert_eq!(find_crlf(b"a\n\r", 1), None);
}

#[test]
fn starts_with_compares_the_front() {
    assert!(starts_with(b"hello", b"he"));
    assert!(starts_with(b"hello", b""));
    assert!(starts_with(b"he", b"he"));
    assert!(!starts_with(b"h", b"he"));
    assert!(!starts_with(b"hallo", b"he"));
}

#[test]
fn fixed_data() {
    assert_eq!(extract_fixed_data(b"_\r\n", "_\r\n", "Null"), Ok(()));
    assert_eq!(extract_fixed_data(b"_\r\nmore", "_\r\n", "Null"), Ok(()));
    assert_eq!(
        extract_fixed_data(b"_\r", "_\r\n", "Null"),
        Err(RespError::NotComplete)
    );
    let err = extract_fixed_data(b"+OK\r\n", "_\r\n", "Null").unwrap_err();
    assert_eq!(
        err,
        RespError::InvalidFrameType("expect: Null, got: b\"+OK\\r\\n\"".to_string())
    );
}

#[test]
fn simple_frame_data() {
    assert_eq!(extract_simple_frame_data(b"+OK\r\n", b'+'), Ok(3));
    assert_eq!(extract_simple_frame_data(b"+\r\n", b'+'), Ok(1));
    assert_eq!(
        extract_simple_frame_data(b"+O", b'+'),
        Err(RespError::NotComplete)
    );
    assert_eq!(
        extract_simple_frame_data(b"+OK\r", b'+'),
        Err(RespError::NotComplete)
    );
    let err = extract_simple_frame_data(b"-OK\r\n", b'+').unwrap_err();
    assert_eq!(
        err,
        RespError::InvalidFrameType(
            "expected SimpleString(+)' but got [45, 79, 75, 13, 10]".to_string()
        )
    );
}

#[test]
fn length_line() {
    assert_eq!(parse_length(b"$13\r\nHello", b'$'), Ok((3, 13)));
    assert_eq!(parse_length(b"*0\r\n", b'*'), Ok((2, 0)));
    assert_eq!(parse_length(b"*+7\r\n", b'*'), Ok((3, 7)));
    assert_eq!(parse_length(b"*7", b'*'), Err(RespError::NotComplete));
    assert_eq!(
        parse_length(b"*-1\r\n", b'*').unwrap_err().kind(),
        ErrorKind::ParseIntError
    );
    assert_eq!(
        parse_length(b"$7\r\n", b'*').unwrap_err().kind(),
        ErrorKind::InvalidFrameType
    );
}

#[test]
fn total_length_counts_from_the_first_byte_behind_the_line() {
    assert_eq!(cal_total_length(b"*1\r\n\r\n", 2, 1, b'*'), Ok(4));
    assert_eq!(
        cal_total_length(b"*2\r\n\r\n", 2, 2, b'*'),
        Err(RespError::NotComplete)
    );
    assert_eq!(cal_total_length(b"*2\r\n\r\n\r\n", 2, 2, b'*'), Ok(6));
    assert_eq!(
        cal_total_length(b"*1\r\n", 2, 1, b'*'),
        Err(RespError::NotComplete)
    );
}

#[test]
fn fixed_data_tells_from_the_bytes_it_holds() {
    assert_eq!(
        extract_fixed_data(b"", "_\r\n", "Null"),
        Err(RespError::NotComplete)
    );
    assert_eq!(
        extract_fixed_data(b"_", "_\r\n", "Null"),
        Err(RespError::NotComplete)
    );
    assert_eq!(
        extract_fixed_data(b"_x", "_\r\n", "Null").unwrap_err().kind(),
        ErrorKind::InvalidFrameType
    );
    assert_eq!(
        extract_fixed_data(b"+", "_\r\n", "Null").unwrap_err().kind(),
        ErrorKind::InvalidFrameType
    );
}

#[test]
fn total_length() {
    let buf = b"*2\r\n+a\r\n+b\r\n";
    assert_eq!(cal_total_length(buf, 2, 2, b'*'), Ok(10));
    assert_eq!(cal_total_length(buf, 2, 1, b'*'), Ok(6));
    assert_eq!(cal_total_length(buf, 2, 3, b'*'), Err(RespError::NotComplete));
    assert_eq!(cal_total_length(buf, 2, 2, b'~'), Ok(10));
    assert_eq!(cal_total_length(buf, 2, 1, b'%'), Ok(10));
    assert_eq!(cal_total_length(buf, 2, 2, b'%'), Err(RespError::NotComplete));
    assert_eq!(cal_total_length(buf, 2, 0, b'*'), Ok(2));
    assert_eq!(cal_total_length(buf, 2, 9, b'$'), Ok(2));
    assert_eq!(
        cal_total_length(buf, 2, usize::MAX, b'%'),
        Err(RespError::NotComplete)
    );
}
