//! Bytes to frames.
//!
//! The functions named `take_` read one value from the front of a slice and
//! say how many bytes it took; they change nothing. `RespDecode::decode`
//! reads from a buffer in that way and takes the bytes off the buffer only
//! when a value was read.
use crate::buffer::buffer_advance;
use crate::buffer::buffer_bytes;
use crate::buffer::buffered;
use crate::error::Failure;
use crate::error::RespError;
use crate::frame::frames_model;
use crate::frame::pairs_model;
use crate::frame::Array;
use crate::frame::BulkError;
use crate::frame::BulkString;
use crate::frame::Null;
use crate::frame::NullArray;
use crate::frame::NullBulkString;
use crate::frame::RespFrame;
use crate::frame::RespMap;
use crate::frame::RespSet;
use crate::frame::SimpleError;
use crate::frame::SimpleString;
use crate::grammar::false_bytes;
use crate::grammar::null_array_bytes;
use crate::grammar::null_bulk_string_bytes;
use crate::grammar::null_bytes;
use crate::grammar::parse_array;
use crate::grammar::parse_boolean;
use crate::grammar::parse_bulk_error;
use crate::grammar::parse_bulk_string;
use crate::grammar::parse_double;
use crate::grammar::parse_frame;
use crate::grammar::parse_header;
use crate::grammar::parse_integer;
use crate::grammar::parse_items;
use crate::grammar::parse_map;
use crate::grammar::parse_null;
use crate::grammar::parse_null_array;
use crate::grammar::parse_null_bulk_string;
use crate::grammar::parse_pairs;
use crate::grammar::parse_sequence;
use crate::grammar::parse_set;
use crate::grammar::parse_simple_error;
use crate::grammar::parse_simple_string;
use crate::grammar::parse_text_line;
use crate::grammar::true_bytes;
use crate::grammar::ARRAY;
use crate::grammar::BOOLEAN;
use crate::grammar::BULK_ERROR;
use crate::grammar::BULK_STRING;
use crate::grammar::CRLF_LEN;
use crate::grammar::DOUBLE;
use crate::grammar::INTEGER;
use crate::grammar::MAP;
use crate::grammar::NULL;
use crate::grammar::SET;
use crate::grammar::SIMPLE_ERROR;
use crate::grammar::SIMPLE_STRING;
use crate::model::entries_of;
use crate::model::Frame;
use crate::numeral::parse_i64;
use crate::scan::cal_total_length;
use crate::scan::extract_fixed_data;
use crate::scan::extract_simple_frame_data;
use crate::scan::parse_length;
use crate::text::string_from_utf8;
use crate::text::string_from_utf8_lossy;
use bytes::BytesMut;
use vstd::prelude::*;
use vstd::slice::slice_subrange;
use vstd::slice::slice_to_vec;
use vstd::utf8::encode_utf8;

verus! {

/// The result `r` of reading from a slice of `len` bytes is what the grammar
/// gives: the value with the model read and the number of bytes it took, or
/// an error of the kind found.
pub open spec fn reads<T: View>(
    r: Result<(T, usize), RespError>,
    parsed: Result<(T::V, int), Failure>,
    len: nat,
) -> bool {
    match parsed {
        Ok((model, used)) => r matches Ok((value, taken)) && value@ == model && taken == used
            && 0 < taken <= len,
        Err(kind) => r matches Err(e) && e@ == kind,
    }
}

/// The result `r` of decoding from a buffer that held `before` and now
/// holds `after` is what the grammar gives: the value read, with the bytes
/// it took gone from the front of the buffer; or an error of the kind
/// found, with the buffer as it was.
pub open spec fn decodes<T: View>(
    r: Result<T, RespError>,
    parsed: Result<(T::V, int), Failure>,
    before: Seq<u8>,
    after: Seq<u8>,
) -> bool {
    match parsed {
        Ok((model, used)) => r matches Ok(value) && value@ == model && 0 < used <= before.len()
            && after == before.skip(used),
        Err(kind) => r matches Err(e) && e@ == kind && after == before,
    }
}

/// The bytes of the fixed frames, as the text literals that stand for them.
pub proof fn lemma_fixed_frames()
    ensures
        encode_utf8("_\r\n"@) == null_bytes(),
        encode_utf8("*-1\r\n"@) == null_array_bytes(),
        encode_utf8("$-1\r\n"@) == null_bulk_string_bytes(),
        encode_utf8("#t\r\n"@) == true_bytes(),
        encode_utf8("#f\r\n"@) == false_bytes(),
{
    reveal_strlit("_\r\n");
    reveal_strlit("*-1\r\n");
    reveal_strlit("$-1\r\n");
    reveal_strlit("#t\r\n");
    reveal_strlit("#f\r\n");
    vstd::utf8::is_ascii_chars_encode_utf8("_\r\n"@);
    vstd::utf8::is_ascii_chars_encode_utf8("*-1\r\n"@);
    vstd::utf8::is_ascii_chars_encode_utf8("$-1\r\n"@);
    vstd::utf8::is_ascii_chars_encode_utf8("#t\r\n"@);
    vstd::utf8::is_ascii_chars_encode_utf8("#f\r\n"@);
    assert(encode_utf8("_\r\n"@) =~= null_bytes());
    assert(encode_utf8("*-1\r\n"@) =~= null_array_bytes());
    assert(encode_utf8("$-1\r\n"@) =~= null_bulk_string_bytes());
    assert(encode_utf8("#t\r\n"@) =~= true_bytes());
    assert(encode_utf8("#f\r\n"@) =~= false_bytes());
}

/// Reads a line of text with the given prefix byte.
pub fn take_text_line(buf: &[u8], prefix: u8) -> (r: Result<(String, usize), RespError>)
    ensures
        reads(r, parse_text_line(buf@, prefix), buf@.len()),
{
    let end = match extract_simple_frame_data(buf, prefix) {
        Ok(end) => end,
        Err(e) => {
            return Err(e);
        },
    };
    let payload = slice_to_vec(slice_subrange(buf, 1, end));
    match string_from_utf8(payload) {
        Ok(text) => Ok((text, end + CRLF_LEN)),
        Err(e) => Err(RespError::Utf8Error(e)),
    }
}

/// Reads `+`, a text and a line terminator.
pub fn take_simple_string(buf: &[u8]) -> (r: Result<(SimpleString, usize), RespError>)
    ensures
        reads(r, parse_simple_string(buf@), buf@.len()),
{
    match take_text_line(buf, SIMPLE_STRING) {
        Ok((text, used)) => Ok((SimpleString(text), used)),
        Err(e) => Err(e),
    }
}

/// Reads `-`, a text and a line terminator.
pub fn take_simple_error(buf: &[u8]) -> (r: Result<(SimpleError, usize), RespError>)
    ensures
        reads(r, parse_simple_error(buf@), buf@.len()),
{
    match take_text_line(buf, SIMPLE_ERROR) {
        Ok((text, used)) => Ok((SimpleError(text), used)),
        Err(e) => Err(e),
    }
}

/// Reads `!`, a text and a line terminator.
pub fn take_bulk_error(buf: &[u8]) -> (r: Result<(BulkError, usize), RespError>)
    ensures
        reads(r, parse_bulk_error(buf@), buf@.len()),
{
    match take_text_line(buf, BULK_ERROR) {
        Ok((text, used)) => Ok((BulkError(text), used)),
        Err(e) => Err(e),
    }
}

/// Reads `_` and a line terminator.
pub fn take_null(buf: &[u8]) -> (r: Result<(Null, usize), RespError>)
    ensures
        reads(r, parse_null(buf@), buf@.len()),
{
    proof {
        lemma_fixed_frames();
    }
    match extract_fixed_data(buf, "_\r\n", "Null") {
        Ok(_) => Ok((Null, 3)),
        Err(e) => Err(e),
    }
}

/// Reads `*-1` and a line terminator.
pub fn take_null_array(buf: &[u8]) -> (r: Result<(NullArray, usize), RespError>)
    ensures
        reads(r, parse_null_array(buf@), buf@.len()),
{
    proof {
        lemma_fixed_frames();
    }
    match extract_fixed_data(buf, "*-1\r\n", "NullArray") {
        Ok(_) => Ok((NullArray, 5)),
        Err(e) => Err(e),
    }
}

/// Reads `$-1` and a line terminator.
pub fn take_null_bulk_string(buf: &[u8]) -> (r: Result<(NullBulkString, usize), RespError>)
    ensures
        reads(r, parse_null_bulk_string(buf@), buf@.len()),
{
    proof {
        lemma_fixed_frames();
    }
    match extract_fixed_data(buf, "$-1\r\n", "NullBulkString") {
        Ok(_) => Ok((NullBulkString, 5)),
        Err(e) => Err(e),
    }
}

/// Reads `:`, a signed numeral that fits in 64 bits and a line terminator.
pub fn take_integer(buf: &[u8]) -> (r: Result<(i64, usize), RespError>)
    ensures
        reads(r, parse_integer(buf@), buf@.len()),
{
    let end = match extract_simple_frame_data(buf, INTEGER) {
        Ok(end) => end,
        Err(e) => {
            return Err(e);
        },
    };
    let field = slice_subrange(buf, 1, end);
    let text = string_from_utf8_lossy(field);
    proof {
        if !vstd::utf8::valid_utf8(field@) {
            crate::numeral::lemma_replacement_is_no_numeral(text@);
        }
    }
    match parse_i64(text.as_str()) {
        Ok(n) => Ok((n, end + CRLF_LEN)),
        Err(e) => Err(RespError::ParseIntError(e)),
    }
}

/// Reads `#t` or `#f` and a line terminator.
pub fn take_boolean(buf: &[u8]) -> (r: Result<(bool, usize), RespError>)
    ensures
        reads(r, parse_boolean(buf@), buf@.len()),
{
    proof {
        lemma_fixed_frames();
    }
    match extract_fixed_data(buf, "#t\r\n", "Bool") {
        Ok(_) => Ok((true, 4)),
        Err(RespError::NotComplete) => Err(RespError::NotComplete),
        Err(_) => match extract_fixed_data(buf, "#f\r\n", "Bool") {
            Ok(_) => Ok((false, 4)),
            Err(e) => Err(e),
        },
    }
}

/// Reads the numeral of a double, as text.
pub fn take_double(buf: &[u8]) -> (r: Result<(String, usize), RespError>)
    ensures
        reads(r, parse_double(buf@), buf@.len()),
{
    let end = match extract_simple_frame_data(buf, DOUBLE) {
        Ok(end) => end,
        Err(e) => {
            return Err(e);
        },
    };
    let text = string_from_utf8_lossy(slice_subrange(buf, 1, end));
    Ok((text, end + CRLF_LEN))
}

/// Reads `$`, a length, a line terminator, that many bytes and two more.
pub fn take_bulk_string(buf: &[u8]) -> (r: Result<(BulkString, usize), RespError>)
    ensures
        reads(r, parse_bulk_string(buf@), buf@.len()),
{
    let (end, len) = match parse_length(buf, BULK_STRING) {
        Ok(found) => found,
        Err(e) => {
            return Err(e);
        },
    };
    let start = end + CRLF_LEN;
    let remained = buf.len() - start;
    if remained < CRLF_LEN || remained - CRLF_LEN < len {
        return Err(RespError::NotComplete);
    }
    let data = slice_to_vec(slice_subrange(buf, start, start + len));
    Ok((BulkString(data), start + len + CRLF_LEN))
}

/// Reads the first line of a container and makes the check that precedes
/// its elements: where the elements start, and how many the line declares.
pub fn take_header(buf: &[u8], prefix: u8) -> (r: Result<(usize, usize), RespError>)
    ensures
        match parse_header(buf@, prefix) {
            Ok((start, len)) => r matches Ok((at, count)) && at == start && count == len && 0
                < start <= buf@.len(),
            Err(kind) => r matches Err(e) && e@ == kind,
        },
{
    let (end, len) = match parse_length(buf, prefix) {
        Ok(found) => found,
        Err(e) => {
            return Err(e);
        },
    };
    match cal_total_length(buf, end, len, prefix) {
        Ok(_) => Ok((end + CRLF_LEN, len)),
        Err(e) => Err(e),
    }
}

/// What was read so far, put in front of what the rest reads as.
pub open spec fn prepend<T>(done: Seq<T>, pos: int, rest: Result<(Seq<T>, int), Failure>)
    -> Result<(Seq<T>, int), Failure> {
    match rest {
        Ok((more, used)) => Ok((done + more, pos + used)),
        Err(e) => Err(e),
    }
}

/// Reads the frame that the slice starts with, of whatever type.
pub fn take_frame(buf: &[u8]) -> (r: Result<(RespFrame, usize), RespError>)
    ensures
        reads(r, parse_frame(buf@), buf@.len()),
    decreases buf@.len(), 2nat,
{
    if buf.len() == 0 {
        return Err(RespError::InvalidFrame("invalid frame type".to_owned()));
    }
    let first = buf[0];
    if first == SIMPLE_STRING {
        match take_simple_string(buf) {
            Ok((value, used)) => Ok((RespFrame::SimpleString(value), used)),
            Err(e) => Err(e),
        }
    } else if first == SIMPLE_ERROR {
        match take_simple_error(buf) {
            Ok((value, used)) => Ok((RespFrame::Error(value), used)),
            Err(e) => Err(e),
        }
    } else if first == ARRAY {
        match take_null_array(buf) {
            Ok((value, used)) => Ok((RespFrame::NullArray(value), used)),
            Err(RespError::NotComplete) => Err(RespError::NotComplete),
            Err(_) => match take_array(buf) {
                Ok((value, used)) => Ok((RespFrame::Array(value), used)),
                Err(e) => Err(e),
            },
        }
    } else if first == INTEGER {
        match take_integer(buf) {
            Ok((value, used)) => Ok((RespFrame::Integer(value), used)),
            Err(e) => Err(e),
        }
    } else if first == BOOLEAN {
        match take_boolean(buf) {
            Ok((value, used)) => Ok((RespFrame::Boolean(value), used)),
            Err(e) => Err(e),
        }
    } else if first == BULK_STRING {
        match take_null_bulk_string(buf) {
            Ok((value, used)) => Ok((RespFrame::NullBulkString(value), used)),
            Err(RespError::NotComplete) => Err(RespError::NotComplete),
            Err(_) => match take_bulk_string(buf) {
                Ok((value, used)) => Ok((RespFrame::BulkString(value), used)),
                Err(e) => Err(e),
            },
        }
    } else if first == SET {
        match take_set(buf) {
            Ok((value, used)) => Ok((RespFrame::RespSet(value), used)),
            Err(e) => Err(e),
        }
    } else if first == MAP {
        match take_map(buf) {
            Ok((value, used)) => Ok((RespFrame::RespMap(value), used)),
            Err(e) => Err(e),
        }
    } else if first == BULK_ERROR {
        match take_bulk_error(buf) {
            Ok((value, used)) => Ok((RespFrame::BulkError(value), used)),
            Err(e) => Err(e),
        }
    } else if first == DOUBLE {
        match take_double(buf) {
            Ok((value, used)) => Ok((RespFrame::Double(value), used)),
            Err(e) => Err(e),
        }
    } else if first == NULL {
        match take_null(buf) {
            Ok((value, used)) => Ok((RespFrame::Null(value), used)),
            Err(e) => Err(e),
        }
    } else {
        Err(RespError::InvalidFrame("invalid frame type".to_owned()))
    }
}

/// Reads `n` frames, one after the other.
pub fn take_items(buf: &[u8], n: usize) -> (r: Result<(Vec<RespFrame>, usize), RespError>)
    ensures
        match parse_items(buf@, n as nat) {
            Ok((items, used)) => r matches Ok((frames, taken)) && frames_model(frames@) == items
                && taken == used && taken <= buf@.len(),
            Err(kind) => r matches Err(e) && e@ == kind,
        },
    decreases buf@.len(), 3nat,
{
    let total = buf.len();
    let mut frames: Vec<RespFrame> = Vec::new();
    let mut pos: usize = 0;
    let mut k: usize = 0;
    proof {
        assert(buf@.skip(0) =~= buf@);
        assert(frames_model(frames@) =~= Seq::<Frame>::empty());
        match parse_items(buf@, n as nat) {
            Ok((items, used)) => {
                assert(Seq::<Frame>::empty() + items =~= items);
            },
            Err(_) => {},
        }
    }
    while k < n
        invariant
            k <= n,
            pos <= total == buf@.len(),
            parse_items(buf@, n as nat) == prepend(
                frames_model(frames@),
                pos as int,
                parse_items(buf@.skip(pos as int), (n - k) as nat),
            ),
        decreases n - k,
    {
        if pos == total {
            return Err(RespError::NotComplete);
        }
        let rest = slice_subrange(buf, pos, total);
        match take_frame(rest) {
            Err(e) => {
                return Err(e);
            },
            Ok((frame, used)) => {
                proof {
                    let model = frames_model(frames@);
                    assert(buf@.skip(pos as int).skip(used as int) =~= buf@.skip(pos + used));
                    assert(frames_model(frames@.push(frame)) =~= model.push(frame@));
                    match parse_items(buf@.skip(pos + used), (n - k - 1) as nat) {
                        Ok((more, _)) => {
                            assert(model + (seq![frame@] + more) =~= model.push(frame@) + more);
                        },
                        Err(_) => {},
                    }
                }
                frames.push(frame);
                pos += used;
                k += 1;
            },
        }
    }
    proof {
        assert(frames_model(frames@) + Seq::<Frame>::empty() =~= frames_model(frames@));
    }
    Ok((frames, pos))
}

/// Reads a container of frames with the given prefix byte.
pub fn take_sequence(buf: &[u8], prefix: u8) -> (r: Result<(Vec<RespFrame>, usize), RespError>)
    ensures
        match parse_sequence(buf@, prefix) {
            Ok((items, used)) => r matches Ok((frames, taken)) && frames_model(frames@) == items
                && taken == used && 0 < taken <= buf@.len(),
            Err(kind) => r matches Err(e) && e@ == kind,
        },
    decreases buf@.len(), 0nat,
{
    let (start, len) = match take_header(buf, prefix) {
        Ok(found) => found,
        Err(e) => {
            return Err(e);
        },
    };
    match take_items(slice_subrange(buf, start, buf.len()), len) {
        Ok((frames, used)) => Ok((frames, start + used)),
        Err(e) => Err(e),
    }
}

/// Reads `*`, a count, a line terminator and that many frames.
pub fn take_array(buf: &[u8]) -> (r: Result<(Array, usize), RespError>)
    ensures
        reads(r, parse_array(buf@), buf@.len()),
    decreases buf@.len(), 1nat,
{
    match take_sequence(buf, ARRAY) {
        Ok((frames, used)) => Ok((Array(frames), used)),
        Err(e) => Err(e),
    }
}

/// Reads `~`, a count, a line terminator and that many frames.
pub fn take_set(buf: &[u8]) -> (r: Result<(RespSet, usize), RespError>)
    ensures
        reads(r, parse_set(buf@), buf@.len()),
    decreases buf@.len(), 1nat,
{
    match take_sequence(buf, SET) {
        Ok((frames, used)) => Ok((RespSet(frames), used)),
        Err(e) => Err(e),
    }
}

/// Reads `n` pairs of a key and a value into a map, each put in as it
/// arrives.
pub fn take_entries(buf: &[u8], n: usize) -> (r: Result<(RespMap, usize), RespError>)
    ensures
        match parse_pairs(buf@, n as nat) {
            Ok((pairs, used)) => r matches Ok((map, taken)) && map@ == entries_of(pairs) && taken
                == used && taken <= buf@.len(),
            Err(kind) => r matches Err(e) && e@ == kind,
        },
    decreases buf@.len(), 3nat,
{
    let total = buf.len();
    let mut map = RespMap::new(Vec::new());
    let ghost mut done: Seq<(Seq<char>, Frame)> = Seq::empty();
    let mut pos: usize = 0;
    let mut k: usize = 0;
    proof {
        assert(buf@.skip(0) =~= buf@);
        assert(pairs_model(Seq::<(String, RespFrame)>::empty()) =~= Seq::empty());
        match parse_pairs(buf@, n as nat) {
            Ok((pairs, used)) => {
                assert(done + pairs =~= pairs);
            },
            Err(_) => {},
        }
    }
    while k < n
        invariant
            k <= n,
            pos <= total == buf@.len(),
            map@ == entries_of(done),
            parse_pairs(buf@, n as nat) == prepend(
                done,
                pos as int,
                parse_pairs(buf@.skip(pos as int), (n - k) as nat),
            ),
        decreases n - k,
    {
        let rest = slice_subrange(buf, pos, total);
        let (key, key_used) = match take_simple_string(rest) {
            Ok(found) => found,
            Err(e) => {
                return Err(e);
            },
        };
        if pos + key_used == total {
            return Err(RespError::NotComplete);
        }
        let after_key = slice_subrange(buf, pos + key_used, total);
        proof {
            assert(rest@.skip(key_used as int) =~= after_key@);
        }
        let (value, value_used) = match take_frame(after_key) {
            Ok(found) => found,
            Err(e) => {
                return Err(e);
            },
        };
        proof {
            let next = done.push((key@, value@));
            assert(rest@.skip(key_used + value_used) =~= buf@.skip(pos + key_used + value_used));
            assert(next.drop_last() =~= done);
            match parse_pairs(
                buf@.skip(pos + key_used + value_used),
                (n - k - 1) as nat,
            ) {
                Ok((more, _)) => {
                    assert(done + (seq![(key@, value@)] + more) =~= next + more);
                },
                Err(_) => {},
            }
            done = next;
        }
        map.insert(key.0, value);
        pos += key_used + value_used;
        k += 1;
    }
    proof {
        assert(done + Seq::<(Seq<char>, Frame)>::empty() =~= done);
    }
    Ok((map, pos))
}

/// Reads `%`, a count, a line terminator and that many pairs of a key and a
/// value.
pub fn take_map(buf: &[u8]) -> (r: Result<(RespMap, usize), RespError>)
    ensures
        reads(r, parse_map(buf@), buf@.len()),
    decreases buf@.len(), 0nat,
{
    let (start, len) = match take_header(buf, MAP) {
        Ok(found) => found,
        Err(e) => {
            return Err(e);
        },
    };
    match take_entries(slice_subrange(buf, start, buf.len()), len) {
        Ok((map, used)) => Ok((map, start + used)),
        Err(e) => Err(e),
    }
}

/// A value that is read from the front of a buffer.
pub trait RespDecode: View + Sized {
    /// What a buffer that holds `input` starts with: the model of the value
    /// and the number of bytes that it takes, or the kind of failure.
    spec fn parse(input: Seq<u8>) -> Result<(Self::V, int), Failure>;

    /// Reads one value from the front of the buffer and takes its bytes off
    /// the buffer. When no value is read the buffer stays as it was:
    /// `NotComplete` asks to decode again once more bytes have arrived, any
    /// other error says that the bytes are no frame of this type.
    fn decode(buf: &mut BytesMut) -> (r: Result<Self, RespError>)
        ensures
            decodes(
                r,
                Self::parse(buffered(*old(buf))),
                buffered(*old(buf)),
                buffered(*final(buf)),
            ),
    ;
}

/// Takes off the buffer the bytes of a value that was read from it.
fn commit<T>(buf: &mut BytesMut, taken: Result<(T, usize), RespError>) -> (r: Result<
    T,
    RespError,
>)
    requires
        taken matches Ok((_, used)) ==> used <= buffered(*old(buf)).len(),
    ensures
        match taken {
            Ok((value, used)) => r == Ok::<T, RespError>(value) && buffered(*final(buf))
                == buffered(*old(buf)).skip(used as int),
            Err(e) => r == Err::<T, RespError>(e) && buffered(*final(buf)) == buffered(*old(buf)),
        },
{
    match taken {
        Ok((value, used)) => {
            buffer_advance(buf, used);
            Ok(value)
        },
        Err(e) => Err(e),
    }
}

impl RespDecode for RespFrame {
    open spec fn parse(input: Seq<u8>) -> Result<(Frame, int), Failure> {
        parse_frame(input)
    }

    /// Reads a frame of the type that the first byte of the buffer names.
    fn decode(buf: &mut BytesMut) -> (r: Result<Self, RespError>) {
        let taken = take_frame(buffer_bytes(buf));
        commit(buf, taken)
    }
}

impl RespDecode for SimpleString {
    open spec fn parse(input: Seq<u8>) -> Result<(Seq<char>, int), Failure> {
        parse_simple_string(input)
    }

    /// Reads `+`, a text and a line terminator.
    fn decode(buf: &mut BytesMut) -> (r: Result<Self, RespError>) {
        let taken = take_simple_string(buffer_bytes(buf));
        commit(buf, taken)
    }
}

impl RespDecode for SimpleError {
    open spec fn parse(input: Seq<u8>) -> Result<(Seq<char>, int), Failure> {
        parse_simple_error(input)
    }

    /// Reads `-`, a text and a line terminator.
    fn decode(buf: &mut BytesMut) -> (r: Result<Self, RespError>) {
        let taken = take_simple_error(buffer_bytes(buf));
        commit(buf, taken)
    }
}

impl RespDecode for BulkError {
    open spec fn parse(input: Seq<u8>) -> Result<(Seq<char>, int), Failure> {
        parse_bulk_error(input)
    }

    /// Reads `!`, a text and a line terminator.
    fn decode(buf: &mut BytesMut) -> (r: Result<Self, RespError>) {
        let taken = take_bulk_error(buffer_bytes(buf));
        commit(buf, taken)
    }
}

impl RespDecode for Null {
    open spec fn parse(input: Seq<u8>) -> Result<((), int), Failure> {
        parse_null(input)
    }

    /// Reads `_` and a line terminator.
    fn decode(buf: &mut BytesMut) -> (r: Result<Self, RespError>) {
        let taken = take_null(buffer_bytes(buf));
        commit(buf, taken)
    }
}

impl RespDecode for NullArray {
    open spec fn parse(input: Seq<u8>) -> Result<((), int), Failure> {
        parse_null_array(input)
    }

    /// Reads `*-1` and a line terminator.
    fn decode(buf: &mut BytesMut) -> (r: Result<Self, RespError>) {
        let taken = take_null_array(buffer_bytes(buf));
        commit(buf, taken)
    }
}

impl RespDecode for NullBulkString {
    open spec fn parse(input: Seq<u8>) -> Result<((), int), Failure> {
        parse_null_bulk_string(input)
    }

    /// Reads `$-1` and a line terminator.
    fn decode(buf: &mut BytesMut) -> (r: Result<Self, RespError>) {
        let taken = take_null_bulk_string(buffer_bytes(buf));
        commit(buf, taken)
    }
}

impl RespDecode for i64 {
    open spec fn parse(input: Seq<u8>) -> Result<(i64, int), Failure> {
        parse_integer(input)
    }

    /// Reads `:`, a signed numeral and a line terminator.
    fn decode(buf: &mut BytesMut) -> (r: Result<Self, RespError>) {
        let taken = take_integer(buffer_bytes(buf));
        commit(buf, taken)
    }
}

impl RespDecode for bool {
    open spec fn parse(input: Seq<u8>) -> Result<(bool, int), Failure> {
        parse_boolean(input)
    }

    /// Reads `#t` or `#f` and a line terminator.
    fn decode(buf: &mut BytesMut) -> (r: Result<Self, RespError>) {
        let taken = take_boolean(buffer_bytes(buf));
        commit(buf, taken)
    }
}

impl RespDecode for BulkString {
    open spec fn parse(input: Seq<u8>) -> Result<(Seq<u8>, int), Failure> {
        parse_bulk_string(input)
    }

    /// Reads `$`, a length, a line terminator, that many bytes and two more.
    fn decode(buf: &mut BytesMut) -> (r: Result<Self, RespError>) {
        let taken = take_bulk_string(buffer_bytes(buf));
        commit(buf, taken)
    }
}

impl RespDecode for Array {
    open spec fn parse(input: Seq<u8>) -> Result<(Seq<Frame>, int), Failure> {
        parse_array(input)
    }

    /// Reads `*`, a count, a line terminator and that many frames.
    fn decode(buf: &mut BytesMut) -> (r: Result<Self, RespError>) {
        let taken = take_array(buffer_bytes(buf));
        commit(buf, taken)
    }
}

impl RespDecode for RespMap {
    open spec fn parse(input: Seq<u8>) -> Result<(Seq<(Seq<char>, Frame)>, int), Failure> {
        parse_map(input)
    }

    /// Reads `%`, a count, a line terminator and that many pairs of a key and a value.
    fn decode(buf: &mut BytesMut) -> (r: Result<Self, RespError>) {
        let taken = take_map(buffer_bytes(buf));
        commit(buf, taken)
    }
}

impl RespDecode for RespSet {
    open spec fn parse(input: Seq<u8>) -> Result<(Seq<Frame>, int), Failure> {
        parse_set(input)
    }

    /// Reads `~`, a count, a line terminator and that many frames.
    fn decode(buf: &mut BytesMut) -> (r: Result<Self, RespError>) {
        let taken = take_set(buffer_bytes(buf));
        commit(buf, taken)
    }
}

} // verus!
