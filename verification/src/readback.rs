//! Frames that are read as they were written.
use crate::error::Failure;
use crate::grammar::false_bytes;
use crate::grammar::null_array_bytes;
use crate::grammar::null_bulk_string_bytes;
use crate::grammar::null_bytes;
use crate::grammar::parse_bulk_string;
use crate::grammar::parse_fixed;
use crate::grammar::parse_frame;
use crate::grammar::parse_header;
use crate::grammar::parse_items;
use crate::grammar::parse_map;
use crate::grammar::parse_pairs;
use crate::grammar::parse_sequence;
use crate::grammar::parse_simple_string;
use crate::grammar::terminators_wanted;
use crate::grammar::true_bytes;
use crate::grammar::wire_bulk;
use crate::grammar::wire_entries;
use crate::grammar::wire_frame;
use crate::grammar::wire_header;
use crate::grammar::wire_items;
use crate::grammar::wire_text_line;
use crate::grammar::ARRAY;
use crate::grammar::BULK_STRING;
use crate::grammar::DOUBLE;
use crate::grammar::MAP;
use crate::grammar::SET;
use crate::grammar::SIMPLE_ERROR;
use crate::grammar::SIMPLE_STRING;
use crate::model::entries_of;
use crate::model::keys_ascend;
use crate::model::Frame;
use crate::numeral::decimal;
use crate::numeral::lemma_decimal_digits;
use crate::scan::crlf;
use crate::scan::crlf_count;
use vstd::prelude::*;
use vstd::utf8::encode_utf8;

use crate::lines::lemma_length_line_reads;
use crate::lines::lemma_text_line_reads;
use crate::lines::plain_text;
use crate::written::lemma_entries_terminators;
use crate::written::lemma_items_terminators;
use crate::written::lemma_nth_crlf_exists;
use crate::written::lemma_wire_entries_split;
use crate::written::lemma_wire_items_end;
use crate::written::lemma_wire_items_split;
use crate::written::wire_entries_from;
use crate::written::wire_items_from;

verus! {
/// A frame that reads back as it was written.
///
/// A text on a line must be plain, and a count or a length must fit in
/// `usize`. An integer is written without the byte that would name its
/// type, and a bulk error is read as one line, so neither reads back. The
/// keys of a map must be in order, as the keys of every map of the program
/// are.
pub open spec fn reads_back(f: Frame) -> bool
    decreases f,
{
    match f {
        Frame::SimpleString(text) => plain_text(text),
        Frame::Error(text) => plain_text(text),
        Frame::BulkError(_) => false,
        Frame::Integer(_) => false,
        Frame::BulkString(payload) => payload.len() <= usize::MAX,
        Frame::NullBulkString => true,
        Frame::Array(items) => {
            &&& items.len() <= usize::MAX
            &&& forall|i: int| 0 <= i < items.len() ==> reads_back(#[trigger] items[i])
        },
        Frame::NullArray => true,
        Frame::Null => true,
        Frame::Boolean(_) => true,
        Frame::Double(text) => plain_text(text),
        Frame::RespMap(entries) => {
            &&& entries.len() <= usize::MAX
            &&& keys_ascend(entries)
            &&& forall|i: int|
                0 <= i < entries.len() ==> plain_text((#[trigger] entries[i]).0) && reads_back(
                    entries[i].1,
                )
        },
        Frame::RespSet(items) => {
            &&& items.len() <= usize::MAX
            &&& forall|i: int| 0 <= i < items.len() ==> reads_back(#[trigger] items[i])
        },
    }
}

/// A map that holds its keys in order is the map that its entries make.
pub proof fn lemma_entries_of_ordered(entries: Seq<(Seq<char>, Frame)>)
    requires
        keys_ascend(entries),
    ensures
        entries_of(entries) == entries,
    decreases entries.len(),
{
    if entries.len() > 0 {
        let front = entries.drop_last();
        let last = entries.last();
        lemma_entries_of_ordered(front);
        assert forall|j: int| 0 <= j < front.len() implies crate::model::key_lt(
            #[trigger] front[j].0,
            last.0,
        ) by {
            assert(front[j] == entries[j]);
        }
        crate::model::lemma_lower_bound_is(front, last.0, front.len() as int);
        assert(front.insert(front.len() as int, (last.0, last.1)) =~= entries);
    }
}

/// Bytes that a buffer starts with are found at its start.
pub proof fn lemma_fixed_reads(bytes: Seq<u8>, rest: Seq<u8>)
    ensures
        forall|expect_type: Seq<char>| parse_fixed(bytes + rest, bytes, expect_type) is Ok,
{
    assert((bytes + rest).subrange(0, bytes.len() as int) =~= bytes);
}

/// A buffer whose second byte is not `-` holds neither null form, nor the
/// first bytes of one.
pub proof fn lemma_not_null_form(s: Seq<u8>)
    requires
        s.len() >= 2,
        s[1] != 45u8,
    ensures
        forall|expect_type: Seq<char>|
            (#[trigger] parse_fixed(s, null_array_bytes(), expect_type)) matches Err(
                Failure::InvalidFrameType(_),
            ),
        forall|expect_type: Seq<char>|
            (#[trigger] parse_fixed(s, null_bulk_string_bytes(), expect_type)) matches Err(
                Failure::InvalidFrameType(_),
            ),
{
    if s.len() >= 5 {
        assert(s.subrange(0, 5)[1] == s[1]);
    } else {
        assert(null_array_bytes().subrange(0, s.len() as int)[1] == 45u8);
        assert(null_bulk_string_bytes().subrange(0, s.len() as int)[1] == 45u8);
    }
}

/// A bulk string reads back as it was written, whatever follows it.
pub proof fn lemma_bulk_string_reads(payload: Seq<u8>, rest: Seq<u8>)
    requires
        payload.len() <= usize::MAX,
    ensures
        parse_bulk_string(wire_bulk(BULK_STRING, payload) + rest) == Ok::<
            (Seq<u8>, int),
            Failure,
        >((payload, wire_bulk(BULK_STRING, payload).len() as int)),
        (wire_bulk(BULK_STRING, payload) + rest)[1] != 45u8,
        wire_bulk(BULK_STRING, payload).len() >= 6,
{
    let n = payload.len();
    let s = wire_bulk(BULK_STRING, payload) + rest;
    let after = payload + crlf() + rest;
    assert(s =~= wire_header(BULK_STRING, n) + after);
    lemma_length_line_reads(BULK_STRING, n, after);
    let end = 1 + decimal(n).len() as int;
    assert(s.subrange(end + 2, end + 2 + n) =~= payload);
}

/// The frames from index `i` on read back as they were written.
pub proof fn lemma_items_read_back(items: Seq<Frame>, i: nat, rest: Seq<u8>)
    requires
        i <= items.len(),
        forall|j: int|
            0 <= j < items.len() ==> reads_back(#[trigger] items[j]),
    ensures
        parse_items(wire_items_from(items, i) + rest, (items.len() - i) as nat) == Ok::<
            (Seq<Frame>, int),
            Failure,
        >((items.skip(i as int), wire_items_from(items, i).len() as int)),
    decreases items, items.len() - i,
{
    let d = wire_items_from(items, i) + rest;
    if i < items.len() {
        let w = wire_frame(items[i as int]);
        let after = wire_items_from(items, i + 1) + rest;
        let more = items.skip(i as int + 1);
        assert(d =~= w + after);
        lemma_frame_reads_back(items[i as int], after);
        assert(d.skip(w.len() as int) =~= after);
        lemma_items_read_back(items, i + 1, rest);
        lemma_items_step(
            d,
            (items.len() - i) as nat,
            items[i as int],
            w.len() as int,
            more,
            wire_items_from(items, i + 1).len() as int,
        );
        assert(seq![items[i as int]] + more =~= items.skip(i as int));
    } else {
        assert(items.skip(i as int) =~= Seq::<Frame>::empty());
    }
}

/// One more frame in front of frames that were read.
pub proof fn lemma_items_step(
    d: Seq<u8>,
    n: nat,
    first: Frame,
    used: int,
    rest: Seq<Frame>,
    more: int,
)
    requires
        n > 0,
        0 <= used <= d.len(),
        parse_frame(d) == Ok::<(Frame, int), Failure>((first, used)),
        parse_items(d.skip(used), (n - 1) as nat) == Ok::<(Seq<Frame>, int), Failure>(
            (rest, more),
        ),
    ensures
        parse_items(d, n) == Ok::<(Seq<Frame>, int), Failure>(
            (seq![first] + rest, used + more),
        ),
{
}

/// One more pair in front of pairs that were read.
pub proof fn lemma_pairs_step(
    d: Seq<u8>,
    n: nat,
    key: Seq<char>,
    key_used: int,
    value: Frame,
    value_used: int,
    rest: Seq<(Seq<char>, Frame)>,
    more: int,
)
    requires
        n > 0,
        0 <= key_used <= d.len(),
        0 <= value_used <= d.len() - key_used,
        parse_simple_string(d) == Ok::<(Seq<char>, int), Failure>((key, key_used)),
        parse_frame(d.skip(key_used)) == Ok::<(Frame, int), Failure>((value, value_used)),
        parse_pairs(d.skip(key_used + value_used), (n - 1) as nat) == Ok::<
            (Seq<(Seq<char>, Frame)>, int),
            Failure,
        >((rest, more)),
    ensures
        parse_pairs(d, n) == Ok::<(Seq<(Seq<char>, Frame)>, int), Failure>(
            (seq![(key, value)] + rest, key_used + value_used + more),
        ),
{
}

/// The entries from index `i` on read back as they were written.
pub proof fn lemma_pairs_read_back(entries: Seq<(Seq<char>, Frame)>, i: nat, rest: Seq<u8>)
    requires
        i <= entries.len(),
        forall|j: int|
            0 <= j < entries.len() ==> plain_text((#[trigger] entries[j]).0) && reads_back(
                entries[j].1,
            ),
    ensures
        parse_pairs(wire_entries_from(entries, i) + rest, (entries.len() - i) as nat) == Ok::<
            (Seq<(Seq<char>, Frame)>, int),
            Failure,
        >((entries.skip(i as int), wire_entries_from(entries, i).len() as int)),
    decreases entries, entries.len() - i,
{
    let d = wire_entries_from(entries, i) + rest;
    if i < entries.len() {
        let entry = entries[i as int];
        let key = wire_text_line(SIMPLE_STRING, entry.0);
        let w = wire_frame(entry.1);
        let after = wire_entries_from(entries, i + 1) + rest;
        let more = entries.skip(i as int + 1);
        assert(d =~= key + (w + after));
        lemma_text_line_reads(SIMPLE_STRING, entry.0, w + after);
        assert(d.skip(key.len() as int) =~= w + after);
        lemma_frame_reads_back(entry.1, after);
        assert(d.skip(key.len() as int + w.len() as int) =~= after);
        lemma_pairs_read_back(entries, i + 1, rest);
        lemma_pairs_step(
            d,
            (entries.len() - i) as nat,
            entry.0,
            key.len() as int,
            entry.1,
            w.len() as int,
            more,
            wire_entries_from(entries, i + 1).len() as int,
        );
        assert(seq![(entry.0, entry.1)] + more =~= entries.skip(i as int));
    } else {
        assert(entries.skip(i as int) =~= Seq::<(Seq<char>, Frame)>::empty());
    }
}

/// The first line of a container and the check on what follows it pass
/// where the container was written whole.
pub proof fn lemma_header_reads(prefix: u8, n: nat, body: Seq<u8>, wanted: nat)
    requires
        n <= usize::MAX,
        wanted == terminators_wanted(prefix, n as usize),
        crlf_count(body, 1, body.len() as int) >= wanted,
    ensures
        parse_header(wire_header(prefix, n) + body, prefix) == Ok::<(int, usize), Failure>(
            (wire_header(prefix, n).len() as int, n as usize),
        ),
        (wire_header(prefix, n) + body)[1] != 45u8,
        (wire_header(prefix, n) + body)[0] == prefix,
        wire_header(prefix, n).len() >= 4,
{
    let s = wire_header(prefix, n) + body;
    lemma_length_line_reads(prefix, n, body);
    lemma_decimal_digits(n);
    let end = 1 + decimal(n).len() as int;
    let data = seq![10u8] + body;
    assert(s.skip(end + 1) =~= data);
    if wanted > 0 {
        crate::written::lemma_crlf_count_shift(seq![10u8], body, 0, body.len() as int);
        if body.len() >= 1 {
            crate::scan::lemma_crlf_count_split(body, 0, 1, body.len() as int);
        } else {
            crate::scan::lemma_crlf_count_bound(body, 1, body.len() as int);
        }
        lemma_nth_crlf_exists(data, wanted, data.len() as int);
    }
}

/// The elements of a container behind its first line.
pub proof fn lemma_sequence_step(
    s: Seq<u8>,
    prefix: u8,
    start: int,
    n: usize,
    items: Seq<Frame>,
    used: int,
)
    requires
        0 < start <= s.len(),
        parse_header(s, prefix) == Ok::<(int, usize), Failure>((start, n)),
        parse_items(s.skip(start), n as nat) == Ok::<(Seq<Frame>, int), Failure>((items, used)),
    ensures
        parse_sequence(s, prefix) == Ok::<(Seq<Frame>, int), Failure>((items, start + used)),
{
}

/// The entries of a map behind its first line.
pub proof fn lemma_map_step(
    s: Seq<u8>,
    start: int,
    n: usize,
    pairs: Seq<(Seq<char>, Frame)>,
    used: int,
)
    requires
        0 < start <= s.len(),
        parse_header(s, MAP) == Ok::<(int, usize), Failure>((start, n)),
        parse_pairs(s.skip(start), n as nat) == Ok::<(Seq<(Seq<char>, Frame)>, int), Failure>(
            (pairs, used),
        ),
    ensures
        parse_map(s) == Ok::<(Seq<(Seq<char>, Frame)>, int), Failure>(
            (entries_of(pairs), start + used),
        ),
{
}

/// A container of frames that read back reads back.
pub proof fn lemma_sequence_reads_back(prefix: u8, items: Seq<Frame>, rest: Seq<u8>)
    requires
        prefix == ARRAY || prefix == SET,
        items.len() <= usize::MAX,
        forall|j: int|
            0 <= j < items.len() ==> reads_back(#[trigger] items[j]),
    ensures
        parse_sequence(
            wire_header(prefix, items.len()) + wire_items(items, items.len()) + rest,
            prefix,
        ) == Ok::<(Seq<Frame>, int), Failure>(
            (
                items,
                (wire_header(prefix, items.len()) + wire_items(items, items.len())).len() as int,
            ),
        ),
        (wire_header(prefix, items.len()) + wire_items(items, items.len()) + rest)[1] != 45u8,
        (wire_header(prefix, items.len()) + wire_items(items, items.len()) + rest)[0] == prefix,
        wire_header(prefix, items.len()).len() >= 4,
        items.len() > 0 ==> wire_items(items, items.len()).len() >= 3,
    decreases items, items.len() + 1,
{
    let n = items.len();
    let header = wire_header(prefix, n);
    let s = header + wire_items(items, n) + rest;
    let body = wire_items_from(items, 0) + rest;
    lemma_wire_items_split(items, 0);
    assert(wire_items(items, n) =~= wire_items_from(items, 0));
    assert(s =~= header + body);
    lemma_items_terminators(items, 0, rest);
    lemma_header_reads(prefix, n, body, n);
    lemma_wire_items_end(items, n);
    assert(s.skip(header.len() as int) =~= body);
    lemma_items_read_back(items, 0, rest);
    assert(items.skip(0) =~= items);
    lemma_sequence_step(
        s,
        prefix,
        header.len() as int,
        n as usize,
        items,
        wire_items_from(items, 0).len() as int,
    );
}

/// A map of plain keys and of values that read back is read as the map
/// that its entries make.
pub proof fn lemma_map_reads_back(entries: Seq<(Seq<char>, Frame)>, rest: Seq<u8>)
    requires
        entries.len() <= usize::MAX,
        forall|j: int|
            0 <= j < entries.len() ==> plain_text((#[trigger] entries[j]).0) && reads_back(
                entries[j].1,
            ),
    ensures
        parse_map(wire_header(MAP, entries.len()) + wire_entries(entries, entries.len()) + rest)
            == Ok::<(Seq<(Seq<char>, Frame)>, int), Failure>(
            (
                entries_of(entries),
                (wire_header(MAP, entries.len()) + wire_entries(
                    entries,
                    entries.len(),
                )).len() as int,
            ),
        ),
        (wire_header(MAP, entries.len()) + wire_entries(entries, entries.len()) + rest)[0] == MAP,
    decreases entries, entries.len() + 1,
{
    let n = entries.len();
    let header = wire_header(MAP, n);
    let s = header + wire_entries(entries, n) + rest;
    let body = wire_entries_from(entries, 0) + rest;
    lemma_wire_entries_split(entries, 0);
    assert(wire_entries(entries, n) =~= wire_entries_from(entries, 0));
    assert(s =~= header + body);
    lemma_entries_terminators(entries, 0, rest);
    lemma_header_reads(MAP, n, body, 2 * n);
    assert(s.skip(header.len() as int) =~= body);
    lemma_pairs_read_back(entries, 0, rest);
    assert(entries.skip(0) =~= entries);
    lemma_map_step(
        s,
        header.len() as int,
        n as usize,
        entries,
        wire_entries_from(entries, 0).len() as int,
    );
}

/// A line of plain text reads back.
pub proof fn lemma_line_frame_reads_back(f: Frame, rest: Seq<u8>)
    requires
        f is SimpleString || f is Error || f is Double,
        reads_back(f),
    ensures
        parse_frame(wire_frame(f) + rest) == Ok::<(Frame, int), Failure>(
            (f, wire_frame(f).len() as int),
        ),
{
    let s = wire_frame(f) + rest;
    match f {
        Frame::SimpleString(text) => {
            lemma_text_line_reads(SIMPLE_STRING, text, rest);
        },
        Frame::Error(text) => {
            lemma_text_line_reads(SIMPLE_ERROR, text, rest);
        },
        Frame::Double(text) => {
            lemma_text_line_reads(DOUBLE, text, rest);
            let end = 1 + encode_utf8(text).len() as int;
            assert(s.subrange(1, end) =~= encode_utf8(text));
            vstd::utf8::encode_utf8_valid_utf8(text);
            vstd::utf8::encode_utf8_decode_utf8(text);
        },
        _ => {},
    }
}

/// A frame that is always written alike reads back.
pub proof fn lemma_fixed_frame_reads_back(f: Frame, rest: Seq<u8>)
    requires
        f is NullBulkString || f is NullArray || f is Null || f is Boolean,
    ensures
        parse_frame(wire_frame(f) + rest) == Ok::<(Frame, int), Failure>(
            (f, wire_frame(f).len() as int),
        ),
{
    let s = wire_frame(f) + rest;
    match f {
        Frame::NullBulkString => {
            lemma_fixed_reads(null_bulk_string_bytes(), rest);
        },
        Frame::NullArray => {
            lemma_fixed_reads(null_array_bytes(), rest);
        },
        Frame::Null => {
            lemma_fixed_reads(null_bytes(), rest);
        },
        Frame::Boolean(b) => {
            if b {
                lemma_fixed_reads(true_bytes(), rest);
            } else {
                lemma_fixed_reads(false_bytes(), rest);
                assert(s.subrange(0, 4)[1] == 102u8);
            }
        },
        _ => {},
    }
}

/// A bulk string reads back.
pub proof fn lemma_bulk_frame_reads_back(payload: Seq<u8>, rest: Seq<u8>)
    requires
        payload.len() <= usize::MAX,
    ensures
        parse_frame(wire_frame(Frame::BulkString(payload)) + rest) == Ok::<(Frame, int), Failure>(
            (Frame::BulkString(payload), wire_frame(Frame::BulkString(payload)).len() as int),
        ),
{
    let s = wire_frame(Frame::BulkString(payload)) + rest;
    lemma_bulk_string_reads(payload, rest);
    lemma_not_null_form(s);
}

/// An array of frames that read back reads back.
pub proof fn lemma_array_frame_reads_back(items: Seq<Frame>, rest: Seq<u8>)
    requires
        reads_back(Frame::Array(items)),
    ensures
        parse_frame(wire_frame(Frame::Array(items)) + rest) == Ok::<(Frame, int), Failure>(
            (Frame::Array(items), wire_frame(Frame::Array(items)).len() as int),
        ),
    decreases items, items.len() + 2,
{
    let s = wire_frame(Frame::Array(items)) + rest;
    lemma_sequence_reads_back(ARRAY, items, rest);
    lemma_not_null_form(s);
}

/// A set of frames that read back reads back.
pub proof fn lemma_set_frame_reads_back(items: Seq<Frame>, rest: Seq<u8>)
    requires
        reads_back(Frame::RespSet(items)),
    ensures
        parse_frame(wire_frame(Frame::RespSet(items)) + rest) == Ok::<(Frame, int), Failure>(
            (Frame::RespSet(items), wire_frame(Frame::RespSet(items)).len() as int),
        ),
    decreases items, items.len() + 2,
{
    lemma_sequence_reads_back(SET, items, rest);
}

/// A map that reads back reads back.
pub proof fn lemma_map_frame_reads_back(entries: Seq<(Seq<char>, Frame)>, rest: Seq<u8>)
    requires
        reads_back(Frame::RespMap(entries)),
    ensures
        parse_frame(wire_frame(Frame::RespMap(entries)) + rest) == Ok::<(Frame, int), Failure>(
            (Frame::RespMap(entries), wire_frame(Frame::RespMap(entries)).len() as int),
        ),
    decreases entries, entries.len() + 2,
{
    lemma_map_reads_back(entries, rest);
    lemma_entries_of_ordered(entries);
}

/// A frame that reads back does so whatever follows it in the buffer.
pub proof fn lemma_frame_reads_back(f: Frame, rest: Seq<u8>)
    requires
        reads_back(f),
    ensures
        parse_frame(wire_frame(f) + rest) == Ok::<(Frame, int), Failure>(
            (f, wire_frame(f).len() as int),
        ),
    decreases f, 0nat,
{
    match f {
        Frame::SimpleString(_) => lemma_line_frame_reads_back(f, rest),
        Frame::Error(_) => lemma_line_frame_reads_back(f, rest),
        Frame::BulkError(_) => {},
        Frame::Integer(_) => {},
        Frame::BulkString(payload) => lemma_bulk_frame_reads_back(payload, rest),
        Frame::NullBulkString => lemma_fixed_frame_reads_back(f, rest),
        Frame::Array(items) => lemma_array_frame_reads_back(items, rest),
        Frame::NullArray => lemma_fixed_frame_reads_back(f, rest),
        Frame::Null => lemma_fixed_frame_reads_back(f, rest),
        Frame::Boolean(_) => lemma_fixed_frame_reads_back(f, rest),
        Frame::Double(_) => lemma_line_frame_reads_back(f, rest),
        Frame::RespMap(entries) => lemma_map_frame_reads_back(entries, rest),
        Frame::RespSet(items) => lemma_set_frame_reads_back(items, rest),
    }
}

} // verus!
