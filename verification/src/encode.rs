//! Frames to bytes.
use crate::frame::frames_model;
use crate::frame::Array;
use crate::frame::BulkError;
use crate::frame::BulkString;
use crate::frame::Null;
use crate::frame::NullArray;
use crate::frame::NullBulkString;
use crate::frame::RespFrame;
use crate::frame::RespMap;
use crate::frame::RespSet;
use crate::frame::SimpleError;
use crate::frame::SimpleString;
use crate::grammar::null_array_bytes;
use crate::grammar::null_bulk_string_bytes;
use crate::grammar::null_bytes;
use crate::grammar::wire_boolean;
use crate::grammar::wire_bulk;
use crate::grammar::wire_entries;
use crate::grammar::wire_frame;
use crate::grammar::wire_header;
use crate::grammar::wire_integer;
use crate::grammar::wire_items;
use crate::grammar::wire_text_line;
use crate::grammar::ARRAY;
use crate::grammar::BULK_ERROR;
use crate::grammar::BULK_STRING;
use crate::grammar::DOUBLE;
use crate::grammar::MAP;
use crate::grammar::SET;
use crate::grammar::SIMPLE_ERROR;
use crate::grammar::SIMPLE_STRING;
use crate::model::Frame;
use crate::numeral::push_decimal;
use crate::numeral::push_signed_decimal;
use crate::scan::crlf;
use vstd::prelude::*;
use vstd::string::StringSliceAdditionalSpecFns;
use vstd::utf8::encode_utf8;

verus! {

/// A value that is written as bytes.
pub trait RespEncode: View + Sized {
    /// The bytes that a value with the given model is written as.
    spec fn wire(v: Self::V) -> Seq<u8>;

    /// The bytes of this value.
    fn encode(self) -> (out: Vec<u8>)
        ensures
            out@ == Self::wire(self@),
    ;
}

/// Appends a line terminator.
pub fn push_crlf(out: &mut Vec<u8>)
    ensures
        final(out)@ == old(out)@ + crlf(),
{
    out.push(13);
    out.push(10);
    assert(out@ =~= old(out)@ + crlf());
}

/// Appends a prefix byte, the text and a line terminator.
pub fn push_text_line(out: &mut Vec<u8>, prefix: u8, text: &str)
    ensures
        final(out)@ == old(out)@ + wire_text_line(prefix, text@),
{
    out.push(prefix);
    out.extend_from_slice(text.as_bytes());
    push_crlf(out);
    assert(out@ =~= old(out)@ + wire_text_line(prefix, text@));
}

/// Appends a prefix byte, the payload's length, a line terminator, the
/// payload and another line terminator.
pub fn push_bulk(out: &mut Vec<u8>, prefix: u8, payload: &[u8])
    ensures
        final(out)@ == old(out)@ + wire_bulk(prefix, payload@),
{
    out.push(prefix);
    push_decimal(out, payload.len() as u64);
    push_crlf(out);
    out.extend_from_slice(payload);
    push_crlf(out);
    assert(out@ =~= old(out)@ + wire_bulk(prefix, payload@));
}

/// Appends the line that opens a container of `count` elements or entries.
pub fn push_header(out: &mut Vec<u8>, prefix: u8, count: usize)
    ensures
        final(out)@ == old(out)@ + wire_header(prefix, count as nat),
{
    out.push(prefix);
    push_decimal(out, count as u64);
    push_crlf(out);
    assert(out@ =~= old(out)@ + wire_header(prefix, count as nat));
}

/// Appends `_\r\n`.
pub fn push_null(out: &mut Vec<u8>)
    ensures
        final(out)@ == old(out)@ + null_bytes(),
{
    out.push(95);
    push_crlf(out);
    assert(out@ =~= old(out)@ + null_bytes());
}

/// Appends `$-1\r\n`.
pub fn push_null_bulk_string(out: &mut Vec<u8>)
    ensures
        final(out)@ == old(out)@ + null_bulk_string_bytes(),
{
    out.push(36);
    out.push(45);
    out.push(49);
    push_crlf(out);
    assert(out@ =~= old(out)@ + null_bulk_string_bytes());
}

/// Appends `*-1\r\n`.
pub fn push_null_array(out: &mut Vec<u8>)
    ensures
        final(out)@ == old(out)@ + null_array_bytes(),
{
    out.push(42);
    out.push(45);
    out.push(49);
    push_crlf(out);
    assert(out@ =~= old(out)@ + null_array_bytes());
}

/// Appends `#t\r\n` or `#f\r\n`.
pub fn push_boolean(out: &mut Vec<u8>, b: bool)
    ensures
        final(out)@ == old(out)@ + wire_boolean(b),
{
    out.push(35);
    if b {
        out.push(116);
    } else {
        out.push(102);
    }
    push_crlf(out);
    assert(out@ =~= old(out)@ + wire_boolean(b));
}

/// Appends an integer: its sign, its magnitude and a line terminator.
pub fn push_integer(out: &mut Vec<u8>, n: i64)
    ensures
        final(out)@ == old(out)@ + wire_integer(n),
{
    push_signed_decimal(out, n);
    push_crlf(out);
    assert(out@ =~= old(out)@ + wire_integer(n));
}

/// Appends the bytes of one frame.
pub fn push_frame(out: &mut Vec<u8>, frame: &RespFrame)
    ensures
        final(out)@ == old(out)@ + wire_frame(frame@),
    decreases frame,
{
    match frame {
        RespFrame::SimpleString(s) => push_text_line(out, SIMPLE_STRING, s.0.as_str()),
        RespFrame::Error(s) => push_text_line(out, SIMPLE_ERROR, s.0.as_str()),
        RespFrame::BulkError(s) => push_bulk(out, BULK_ERROR, s.0.as_str().as_bytes()),
        RespFrame::Integer(n) => push_integer(out, *n),
        RespFrame::BulkString(b) => push_bulk(out, BULK_STRING, b.0.as_slice()),
        RespFrame::NullBulkString(_) => push_null_bulk_string(out),
        RespFrame::Array(a) => {
            push_header(out, ARRAY, a.0.len());
            push_frames(out, &a.0);
            assert(out@ =~= old(out)@ + wire_frame(frame@));
        },
        RespFrame::NullArray(_) => push_null_array(out),
        RespFrame::Null(_) => push_null(out),
        RespFrame::Boolean(b) => push_boolean(out, *b),
        RespFrame::Double(text) => push_text_line(out, DOUBLE, text.as_str()),
        RespFrame::RespMap(m) => {
            push_entries(out, m);
        },
        RespFrame::RespSet(s) => {
            push_header(out, SET, s.0.len());
            push_frames(out, &s.0);
            assert(out@ =~= old(out)@ + wire_frame(frame@));
        },
    }
}

/// Appends the bytes of some frames, one after the other.
pub fn push_frames(out: &mut Vec<u8>, frames: &Vec<RespFrame>)
    ensures
        final(out)@ == old(out)@ + wire_items(frames_model(frames@), frames@.len()),
    decreases frames,
{
    let ghost items = frames_model(frames@);
    let mut i: usize = 0;
    while i < frames.len()
        invariant
            i <= frames@.len(),
            items == frames_model(frames@),
            out@ == old(out)@ + wire_items(items, i as nat),
        decreases frames@.len() - i,
    {
        let ghost before = out@;
        push_frame(out, &frames[i]);
        proof {
            assert(items[i as int] == frames@[i as int]@);
            assert(out@ =~= old(out)@ + wire_items(items, (i + 1) as nat));
        }
        i += 1;
    }
}

/// Appends a map: its first line, then each key as a simple string with its
/// value, in the order of the keys.
pub fn push_entries(out: &mut Vec<u8>, map: &RespMap)
    ensures
        final(out)@ == old(out)@ + wire_header(MAP, map@.len()) + wire_entries(
            map@,
            map@.len(),
        ),
    decreases map,
{
    let len = map.len();
    push_header(out, MAP, len);
    let ghost start = out@;
    let mut i: usize = 0;
    while i < len
        invariant
            i <= len,
            len == map@.len(),
            out@ == start + wire_entries(map@, i as nat),
        decreases len - i,
    {
        push_text_line(out, SIMPLE_STRING, map.key_at(i).as_str());
        push_frame(out, map.value_at(i));
        proof {
            assert(out@ =~= start + wire_entries(map@, (i + 1) as nat));
        }
        i += 1;
    }
}

impl RespEncode for RespFrame {
    open spec fn wire(f: Frame) -> Seq<u8> {
        wire_frame(f)
    }

    /// The bytes of the frame, by its type.
    fn encode(self) -> (out: Vec<u8>) {
        let mut out: Vec<u8> = Vec::new();
        push_frame(&mut out, &self);
        assert(out@ =~= Self::wire(self@));
        out
    }
}

impl RespEncode for SimpleString {
    open spec fn wire(text: Seq<char>) -> Seq<u8> {
        wire_text_line(SIMPLE_STRING, text)
    }

    /// `+`, the text and a line terminator.
    fn encode(self) -> (out: Vec<u8>) {
        let mut out: Vec<u8> = Vec::new();
        push_text_line(&mut out, SIMPLE_STRING, self.0.as_str());
        assert(out@ =~= Self::wire(self@));
        out
    }
}

impl RespEncode for SimpleError {
    open spec fn wire(text: Seq<char>) -> Seq<u8> {
        wire_text_line(SIMPLE_ERROR, text)
    }

    /// `-`, the text and a line terminator.
    fn encode(self) -> (out: Vec<u8>) {
        let mut out: Vec<u8> = Vec::new();
        push_text_line(&mut out, SIMPLE_ERROR, self.0.as_str());
        assert(out@ =~= Self::wire(self@));
        out
    }
}

impl RespEncode for BulkError {
    open spec fn wire(text: Seq<char>) -> Seq<u8> {
        wire_bulk(BULK_ERROR, encode_utf8(text))
    }

    /// `!`, the number of the text's bytes, a line terminator, the text and
    /// a line terminator.
    fn encode(self) -> (out: Vec<u8>) {
        let mut out: Vec<u8> = Vec::new();
        push_bulk(&mut out, BULK_ERROR, self.0.as_str().as_bytes());
        assert(out@ =~= Self::wire(self@));
        out
    }
}

impl RespEncode for i64 {
    open spec fn wire(n: i64) -> Seq<u8> {
        wire_integer(n)
    }

    /// `+` or `-`, the magnitude and a line terminator.
    fn encode(self) -> (out: Vec<u8>) {
        let mut out: Vec<u8> = Vec::new();
        push_integer(&mut out, self);
        assert(out@ =~= Self::wire(self@));
        out
    }
}

impl RespEncode for BulkString {
    open spec fn wire(payload: Seq<u8>) -> Seq<u8> {
        wire_bulk(BULK_STRING, payload)
    }

    /// `$`, the number of bytes, a line terminator, the bytes and a line terminator.
    fn encode(self) -> (out: Vec<u8>) {
        let mut out: Vec<u8> = Vec::new();
        push_bulk(&mut out, BULK_STRING, self.0.as_slice());
        assert(out@ =~= Self::wire(self@));
        out
    }
}

impl RespEncode for NullBulkString {
    open spec fn wire(unit: ()) -> Seq<u8> {
        null_bulk_string_bytes()
    }

    /// `$-1` and a line terminator.
    fn encode(self) -> (out: Vec<u8>) {
        let mut out: Vec<u8> = Vec::new();
        push_null_bulk_string(&mut out);
        assert(out@ =~= Self::wire(self@));
        out
    }
}

impl RespEncode for Array {
    open spec fn wire(items: Seq<Frame>) -> Seq<u8> {
        wire_header(ARRAY, items.len()) + wire_items(items, items.len())
    }

    /// `*`, the number of frames, a line terminator and each frame in order.
    fn encode(self) -> (out: Vec<u8>) {
        let mut out: Vec<u8> = Vec::new();
        push_header(&mut out, ARRAY, self.0.len());
        push_frames(&mut out, &self.0);
        assert(out@ =~= Self::wire(self@));
        out
    }
}

impl RespEncode for NullArray {
    open spec fn wire(unit: ()) -> Seq<u8> {
        null_array_bytes()
    }

    /// `*-1` and a line terminator.
    fn encode(self) -> (out: Vec<u8>) {
        let mut out: Vec<u8> = Vec::new();
        push_null_array(&mut out);
        assert(out@ =~= Self::wire(self@));
        out
    }
}

impl RespEncode for Null {
    open spec fn wire(unit: ()) -> Seq<u8> {
        null_bytes()
    }

    /// `_` and a line terminator.
    fn encode(self) -> (out: Vec<u8>) {
        let mut out: Vec<u8> = Vec::new();
        push_null(&mut out);
        assert(out@ =~= Self::wire(self@));
        out
    }
}

impl RespEncode for bool {
    open spec fn wire(b: bool) -> Seq<u8> {
        wire_boolean(b)
    }

    /// `#t` or `#f` and a line terminator.
    fn encode(self) -> (out: Vec<u8>) {
        let mut out: Vec<u8> = Vec::new();
        push_boolean(&mut out, self);
        assert(out@ =~= Self::wire(self@));
        out
    }
}

impl RespEncode for RespMap {
    open spec fn wire(entries: Seq<(Seq<char>, Frame)>) -> Seq<u8> {
        wire_header(MAP, entries.len()) + wire_entries(entries, entries.len())
    }

    /// `%`, the number of entries, a line terminator and, in the order of
    /// the keys, each key as a simple string with its value.
    fn encode(self) -> (out: Vec<u8>) {
        let mut out: Vec<u8> = Vec::new();
        push_entries(&mut out, &self);
        assert(out@ =~= Self::wire(self@));
        out
    }
}

impl RespEncode for RespSet {
    open spec fn wire(items: Seq<Frame>) -> Seq<u8> {
        wire_header(SET, items.len()) + wire_items(items, items.len())
    }

    /// `~`, the number of frames, a line terminator and each frame in order.
    fn encode(self) -> (out: Vec<u8>) {
        let mut out: Vec<u8> = Vec::new();
        push_header(&mut out, SET, self.0.len());
        push_frames(&mut out, &self.0);
        assert(out@ =~= Self::wire(self@));
        out
    }
}

} // verus!
