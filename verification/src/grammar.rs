//! The wire format: what bytes a frame is written as, and what frame a
//! buffer starts with.
//!
//! Everything here is specification. `wire_frame` is the encoder's contract
//! and `parse_frame` the decoder's; a parse result is the value read and the
//! number of bytes it took, or the kind of failure.
use crate::error::invalid_frame_text;
use crate::error::unexpected_frame_text;
use crate::error::unexpected_prefix_text;
use crate::error::Failure;
use crate::model::Frame;
use crate::numeral::count_field;
use crate::numeral::decimal;
use crate::numeral::i64_parse_error;
use crate::numeral::integer_field;
use crate::numeral::usize_parse_error;
use crate::numeral::signed_decimal;
use crate::scan::crlf;
use crate::scan::nth_crlf;
use crate::text::lossy_text;
use vstd::prelude::*;
use vstd::utf8::decode_utf8;
use vstd::utf8::encode_utf8;
use vstd::utf8::valid_utf8;

verus! {

/// `+`, the first byte of a simple string.
pub const SIMPLE_STRING: u8 = 43;

/// `-`, the first byte of a simple error.
pub const SIMPLE_ERROR: u8 = 45;

/// `!`, the first byte of a bulk error.
pub const BULK_ERROR: u8 = 33;

/// `:`, the first byte of an integer.
pub const INTEGER: u8 = 58;

/// `$`, the first byte of a bulk string and of the null bulk string.
pub const BULK_STRING: u8 = 36;

/// `*`, the first byte of an array and of the null array.
pub const ARRAY: u8 = 42;

/// `#`, the first byte of a boolean.
pub const BOOLEAN: u8 = 35;

/// `,`, the first byte of a double.
pub const DOUBLE: u8 = 44;

/// `%`, the first byte of a map.
pub const MAP: u8 = 37;

/// `~`, the first byte of a set.
pub const SET: u8 = 126;

/// `_`, the first byte of the null.
pub const NULL: u8 = 95;

/// The length of a line terminator.
pub const CRLF_LEN: usize = 2;

/// `$-1\r\n`
pub open spec fn null_bulk_string_bytes() -> Seq<u8> {
    seq![36u8, 45u8, 49u8, 13u8, 10u8]
}

/// `*-1\r\n`
pub open spec fn null_array_bytes() -> Seq<u8> {
    seq![42u8, 45u8, 49u8, 13u8, 10u8]
}

/// `_\r\n`
pub open spec fn null_bytes() -> Seq<u8> {
    seq![95u8, 13u8, 10u8]
}

/// `#t\r\n`
pub open spec fn true_bytes() -> Seq<u8> {
    seq![35u8, 116u8, 13u8, 10u8]
}

/// `#f\r\n`
pub open spec fn false_bytes() -> Seq<u8> {
    seq![35u8, 102u8, 13u8, 10u8]
}

// ---------------------------------------------------------------------
// Writing
// ---------------------------------------------------------------------
/// A prefix byte, a text and a line terminator.
pub open spec fn wire_text_line(prefix: u8, text: Seq<char>) -> Seq<u8> {
    seq![prefix] + encode_utf8(text) + crlf()
}

/// A prefix byte, the payload's length, a line terminator, the payload and
/// another line terminator.
pub open spec fn wire_bulk(prefix: u8, payload: Seq<u8>) -> Seq<u8> {
    seq![prefix] + decimal(payload.len()) + crlf() + payload + crlf()
}

/// An integer is written as its sign and magnitude, without a prefix byte.
pub open spec fn wire_integer(n: i64) -> Seq<u8> {
    signed_decimal(n as int) + crlf()
}

/// `#t` or `#f` and a line terminator.
pub open spec fn wire_boolean(b: bool) -> Seq<u8> {
    if b {
        true_bytes()
    } else {
        false_bytes()
    }
}

/// The line that opens a container of `count` elements or entries.
pub open spec fn wire_header(prefix: u8, count: nat) -> Seq<u8> {
    seq![prefix] + decimal(count) + crlf()
}

/// The bytes of one frame.
pub open spec fn wire_frame(f: Frame) -> Seq<u8>
    decreases f, 0nat,
{
    match f {
        Frame::SimpleString(text) => wire_text_line(SIMPLE_STRING, text),
        Frame::Error(text) => wire_text_line(SIMPLE_ERROR, text),
        Frame::BulkError(text) => wire_bulk(BULK_ERROR, encode_utf8(text)),
        Frame::Integer(n) => wire_integer(n),
        Frame::BulkString(payload) => wire_bulk(BULK_STRING, payload),
        Frame::NullBulkString => null_bulk_string_bytes(),
        Frame::Array(items) => wire_header(ARRAY, items.len()) + wire_items(items, items.len()),
        Frame::NullArray => null_array_bytes(),
        Frame::Null => null_bytes(),
        Frame::Boolean(b) => wire_boolean(b),
        Frame::Double(text) => wire_text_line(DOUBLE, text),
        Frame::RespMap(entries) => wire_header(MAP, entries.len()) + wire_entries(
            entries,
            entries.len(),
        ),
        Frame::RespSet(items) => wire_header(SET, items.len()) + wire_items(items, items.len()),
    }
}

/// The bytes of the first `k` frames of `items`, one after the other.
pub open spec fn wire_items(items: Seq<Frame>, k: nat) -> Seq<u8>
    decreases items, k,
{
    if k == 0 || k > items.len() {
        Seq::empty()
    } else {
        wire_items(items, (k - 1) as nat) + wire_frame(items[k - 1])
    }
}

/// The bytes of the first `k` entries of a map: each key as a simple
/// string, then its value.
pub open spec fn wire_entries(entries: Seq<(Seq<char>, Frame)>, k: nat) -> Seq<u8>
    decreases entries, k,
{
    if k == 0 || k > entries.len() {
        Seq::empty()
    } else {
        wire_entries(entries, (k - 1) as nat) + wire_text_line(SIMPLE_STRING, entries[k - 1].0)
            + wire_frame(entries[k - 1].1)
    }
}

// ---------------------------------------------------------------------
// Reading: lines, fixed frames and lengths
// ---------------------------------------------------------------------
/// Where the first line of a frame with the given prefix byte ends: the
/// index of its carriage return.
///
/// A buffer of fewer than three bytes is not complete, whatever it holds.
pub open spec fn parse_line_end(s: Seq<u8>, prefix: u8) -> Result<int, Failure> {
    if s.len() < 3 {
        Err(Failure::NotComplete)
    } else if s[0] != prefix {
        Err(Failure::InvalidFrameType(unexpected_prefix_text(s)))
    } else {
        match nth_crlf(s, 1) {
            Some(end) => Ok(end),
            None => Err(Failure::NotComplete),
        }
    }
}

/// Whether the buffer starts with the bytes `expect`.
///
/// A buffer is not complete only where it cannot tell yet: where it is
/// shorter than `expect` and holds the first bytes of it. A buffer that
/// differs from `expect` in a byte that it holds is a frame of another type
/// than `expect_type`, which the message names.
pub open spec fn parse_fixed(s: Seq<u8>, expect: Seq<u8>, expect_type: Seq<char>) -> Result<
    (),
    Failure,
> {
    if s.len() >= expect.len() {
        if s.subrange(0, expect.len() as int) == expect {
            Ok(())
        } else {
            Err(Failure::InvalidFrameType(unexpected_frame_text(expect_type, s)))
        }
    } else if s == expect.subrange(0, s.len() as int) {
        Err(Failure::NotComplete)
    } else {
        Err(Failure::InvalidFrameType(unexpected_frame_text(expect_type, s)))
    }
}

/// The first line of a frame read as a length: where the line ends, and the
/// count it holds; or, where it holds no count, the error that the parser
/// of numerals gives for the text of the line.
pub open spec fn parse_length_line(s: Seq<u8>, prefix: u8) -> Result<(int, usize), Failure> {
    match parse_line_end(s, prefix) {
        Err(e) => Err(e),
        Ok(end) => match count_field(s.subrange(1, end)) {
            Some(n) => Ok((end, n)),
            None => Err(Failure::ParseIntError(usize_parse_error(lossy_text(s.subrange(1, end))))),
        },
    }
}

/// How many line terminators must stand behind the first line of a
/// container before any of it is read: one for each element, two for each
/// entry of a map.
pub open spec fn terminators_wanted(prefix: u8, len: usize) -> nat {
    if prefix == ARRAY || prefix == SET {
        len as nat
    } else if prefix == MAP {
        (2 * len) as nat
    } else {
        0
    }
}

/// The check made on a container before any of it is read.
///
/// `end` is where the first line ends and `len` the count it holds. Unless
/// the buffer holds the wanted number of line terminators behind the first
/// line, the frame is not complete. The result is the index in `s` at which
/// the last wanted terminator starts; where none is wanted, that is the
/// terminator of the first line.
pub open spec fn parse_total_length(s: Seq<u8>, end: int, len: usize, prefix: u8) -> Result<
    int,
    Failure,
> {
    let wanted = terminators_wanted(prefix, len);
    if wanted == 0 {
        Ok(end)
    } else {
        match nth_crlf(s.skip(end + 1), wanted) {
            Some(i) => Ok(end + 1 + i),
            None => Err(Failure::NotComplete),
        }
    }
}

// ---------------------------------------------------------------------
// Reading: one frame of a given type
// ---------------------------------------------------------------------
/// A line that holds text: the text between the prefix byte and the end of
/// the line, which must be UTF-8; the failure holds the bytes that are not.
pub open spec fn parse_text_line(s: Seq<u8>, prefix: u8) -> Result<(Seq<char>, int), Failure> {
    match parse_line_end(s, prefix) {
        Err(e) => Err(e),
        Ok(end) => if valid_utf8(s.subrange(1, end)) {
            Ok((decode_utf8(s.subrange(1, end)), end + 2))
        } else {
            Err(Failure::Utf8Error(s.subrange(1, end)))
        },
    }
}

/// `+`, a text and a line terminator.
pub open spec fn parse_simple_string(s: Seq<u8>) -> Result<(Seq<char>, int), Failure> {
    parse_text_line(s, SIMPLE_STRING)
}

/// `-`, a text and a line terminator.
pub open spec fn parse_simple_error(s: Seq<u8>) -> Result<(Seq<char>, int), Failure> {
    parse_text_line(s, SIMPLE_ERROR)
}

/// A bulk error is read as one line: the text up to the first line
/// terminator.
pub open spec fn parse_bulk_error(s: Seq<u8>) -> Result<(Seq<char>, int), Failure> {
    parse_text_line(s, BULK_ERROR)
}

/// `:`, a signed numeral that fits in 64 bits and a line terminator.
pub open spec fn parse_integer(s: Seq<u8>) -> Result<(i64, int), Failure> {
    match parse_line_end(s, INTEGER) {
        Err(e) => Err(e),
        Ok(end) => match integer_field(s.subrange(1, end)) {
            Some(n) => Ok((n, end + 2)),
            None => Err(Failure::ParseIntError(i64_parse_error(lossy_text(s.subrange(1, end))))),
        },
    }
}

/// A double is read as the numeral on its line; the numeral is not
/// interpreted.
pub open spec fn parse_double(s: Seq<u8>) -> Result<(Seq<char>, int), Failure> {
    match parse_line_end(s, DOUBLE) {
        Err(e) => Err(e),
        Ok(end) => Ok((lossy_text(s.subrange(1, end)), end + 2)),
    }
}

/// `_` and a line terminator.
pub open spec fn parse_null(s: Seq<u8>) -> Result<((), int), Failure> {
    match parse_fixed(s, null_bytes(), "Null"@) {
        Err(e) => Err(e),
        Ok(_) => Ok(((), 3)),
    }
}

/// `*-1` and a line terminator.
pub open spec fn parse_null_array(s: Seq<u8>) -> Result<((), int), Failure> {
    match parse_fixed(s, null_array_bytes(), "NullArray"@) {
        Err(e) => Err(e),
        Ok(_) => Ok(((), 5)),
    }
}

/// `$-1` and a line terminator.
pub open spec fn parse_null_bulk_string(s: Seq<u8>) -> Result<((), int), Failure> {
    match parse_fixed(s, null_bulk_string_bytes(), "NullBulkString"@) {
        Err(e) => Err(e),
        Ok(_) => Ok(((), 5)),
    }
}

/// `#t` or `#f` and a line terminator.
pub open spec fn parse_boolean(s: Seq<u8>) -> Result<(bool, int), Failure> {
    match parse_fixed(s, true_bytes(), "Bool"@) {
        Ok(_) => Ok((true, 4)),
        Err(Failure::NotComplete) => Err(Failure::NotComplete),
        Err(_) => match parse_fixed(s, false_bytes(), "Bool"@) {
            Ok(_) => Ok((false, 4)),
            Err(e) => Err(e),
        },
    }
}

/// A bulk string: the length on the first line, then that many bytes and two
/// more, which are not looked at.
pub open spec fn parse_bulk_string(s: Seq<u8>) -> Result<(Seq<u8>, int), Failure> {
    match parse_length_line(s, BULK_STRING) {
        Err(e) => Err(e),
        Ok((end, len)) => if s.len() - (end + 2) < len + 2 {
            Err(Failure::NotComplete)
        } else {
            Ok((s.subrange(end + 2, end + 2 + len), end + 2 + len + 2))
        },
    }
}

/// The first line of a container and the check that precedes its elements:
/// where the elements start, and how many the first line declares.
pub open spec fn parse_header(s: Seq<u8>, prefix: u8) -> Result<(int, usize), Failure> {
    match parse_length_line(s, prefix) {
        Err(e) => Err(e),
        Ok((end, len)) => match parse_total_length(s, end, len, prefix) {
            Err(e) => Err(e),
            Ok(_) => Ok((end + 2, len)),
        },
    }
}

// ---------------------------------------------------------------------
// Reading: any frame
// ---------------------------------------------------------------------
/// Lifts a typed result to a frame.
pub open spec fn lift<T>(r: Result<(T, int), Failure>, wrap: spec_fn(T) -> Frame) -> Result<
    (Frame, int),
    Failure,
> {
    match r {
        Ok((v, used)) => Ok((wrap(v), used)),
        Err(e) => Err(e),
    }
}

/// The frame that the buffer starts with, chosen by its first byte.
///
/// For `$` and `*` the null form is tried first. A buffer that holds only
/// the first bytes of the null form is not complete; any other buffer that
/// does not hold the null form is read as the sized form. A buffer that
/// holds nothing is no frame.
pub open spec fn parse_frame(s: Seq<u8>) -> Result<(Frame, int), Failure>
    decreases s.len(), 2nat,
{
    if s.len() == 0 {
        Err(Failure::InvalidFrame(invalid_frame_text()))
    } else if s[0] == SIMPLE_STRING {
        lift(parse_simple_string(s), |t: Seq<char>| Frame::SimpleString(t))
    } else if s[0] == SIMPLE_ERROR {
        lift(parse_simple_error(s), |t: Seq<char>| Frame::Error(t))
    } else if s[0] == ARRAY {
        match parse_null_array(s) {
            Ok(_) => Ok((Frame::NullArray, 5)),
            Err(Failure::NotComplete) => Err(Failure::NotComplete),
            Err(_) => lift(parse_array(s), |items: Seq<Frame>| Frame::Array(items)),
        }
    } else if s[0] == INTEGER {
        lift(parse_integer(s), |n: i64| Frame::Integer(n))
    } else if s[0] == BOOLEAN {
        lift(parse_boolean(s), |b: bool| Frame::Boolean(b))
    } else if s[0] == BULK_STRING {
        match parse_null_bulk_string(s) {
            Ok(_) => Ok((Frame::NullBulkString, 5)),
            Err(Failure::NotComplete) => Err(Failure::NotComplete),
            Err(_) => lift(parse_bulk_string(s), |b: Seq<u8>| Frame::BulkString(b)),
        }
    } else if s[0] == SET {
        lift(parse_set(s), |items: Seq<Frame>| Frame::RespSet(items))
    } else if s[0] == MAP {
        lift(parse_map(s), |entries: Seq<(Seq<char>, Frame)>| Frame::RespMap(entries))
    } else if s[0] == BULK_ERROR {
        lift(parse_bulk_error(s), |t: Seq<char>| Frame::BulkError(t))
    } else if s[0] == DOUBLE {
        lift(parse_double(s), |t: Seq<char>| Frame::Double(t))
    } else if s[0] == NULL {
        lift(parse_null(s), |u: ()| Frame::Null)
    } else {
        Err(Failure::InvalidFrame(invalid_frame_text()))
    }
}

/// A container of frames with the given prefix byte: its first line, the
/// check on the rest, then as many frames as the first line declares.
pub open spec fn parse_sequence(s: Seq<u8>, prefix: u8) -> Result<(Seq<Frame>, int), Failure>
    decreases s.len(), 0nat,
{
    match parse_header(s, prefix) {
        Err(e) => Err(e),
        Ok((start, len)) => if 0 < start <= s.len() {
            match parse_items(s.skip(start), len as nat) {
                Err(e) => Err(e),
                Ok((items, used)) => Ok((items, start + used)),
            }
        } else {
            Err(Failure::NotComplete)
        },
    }
}

/// An array is read as its elements in the order of their arrival.
pub open spec fn parse_array(s: Seq<u8>) -> Result<(Seq<Frame>, int), Failure>
    decreases s.len(), 1nat,
{
    parse_sequence(s, ARRAY)
}

/// A set is read as its elements in the order of their arrival; an element
/// may occur twice.
pub open spec fn parse_set(s: Seq<u8>) -> Result<(Seq<Frame>, int), Failure>
    decreases s.len(), 1nat,
{
    parse_sequence(s, SET)
}

/// `n` frames, one after the other. A buffer that ends where a frame is
/// still owed is not complete.
pub open spec fn parse_items(s: Seq<u8>, n: nat) -> Result<(Seq<Frame>, int), Failure>
    decreases s.len(), n + 3,
{
    if n == 0 {
        Ok((Seq::empty(), 0))
    } else if s.len() == 0 {
        Err(Failure::NotComplete)
    } else {
        match parse_frame(s) {
            Err(e) => Err(e),
            Ok((first, used)) => if 0 <= used <= s.len() {
                match parse_items(s.skip(used), (n - 1) as nat) {
                    Err(e) => Err(e),
                    Ok((rest, more)) => Ok((seq![first] + rest, used + more)),
                }
            } else {
                Err(Failure::NotComplete)
            },
        }
    }
}

/// A map: its first line, the check on the rest, then as many entries as the
/// first line declares, each put into the map as it arrives.
pub open spec fn parse_map(s: Seq<u8>) -> Result<(Seq<(Seq<char>, Frame)>, int), Failure>
    decreases s.len(), 0nat,
{
    match parse_header(s, MAP) {
        Err(e) => Err(e),
        Ok((start, len)) => if 0 < start <= s.len() {
            match parse_pairs(s.skip(start), len as nat) {
                Err(e) => Err(e),
                Ok((pairs, used)) => Ok((crate::model::entries_of(pairs), start + used)),
            }
        } else {
            Err(Failure::NotComplete)
        },
    }
}

/// `n` pairs of a key, written as a simple string, and a value. A buffer
/// that ends where a key or a value is still owed is not complete.
pub open spec fn parse_pairs(s: Seq<u8>, n: nat) -> Result<
    (Seq<(Seq<char>, Frame)>, int),
    Failure,
>
    decreases s.len(), n + 3,
{
    if n == 0 {
        Ok((Seq::empty(), 0))
    } else {
        match parse_simple_string(s) {
            Err(e) => Err(e),
            Ok((key, key_used)) => if key_used == s.len() {
                Err(Failure::NotComplete)
            } else if 0 <= key_used < s.len() {
                match parse_frame(s.skip(key_used)) {
                    Err(e) => Err(e),
                    Ok((value, value_used)) => if 0 <= value_used <= s.len() - key_used {
                        match parse_pairs(s.skip(key_used + value_used), (n - 1) as nat) {
                            Err(e) => Err(e),
                            Ok((rest, more)) => Ok(
                                (seq![(key, value)] + rest, key_used + value_used + more),
                            ),
                        }
                    } else {
                        Err(Failure::NotComplete)
                    },
                }
            } else {
                Err(Failure::NotComplete)
            },
        }
    }
}

} // verus!
