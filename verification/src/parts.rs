//! What is read from a part of the bytes of a frame: nothing yet, for the
//! buffer is not complete.
use crate::error::Failure;
use crate::grammar::null_array_bytes;
use crate::grammar::parse_fixed;
use crate::grammar::parse_frame;
use crate::grammar::parse_header;
use crate::grammar::parse_items;
use crate::grammar::parse_map;
use crate::grammar::parse_pairs;
use crate::grammar::parse_sequence;
use crate::grammar::parse_simple_string;
use crate::grammar::wire_entries;
use crate::grammar::wire_frame;
use crate::grammar::wire_header;
use crate::grammar::wire_items;
use crate::grammar::wire_text_line;
use crate::grammar::ARRAY;
use crate::grammar::MAP;
use crate::grammar::SET;
use crate::grammar::SIMPLE_STRING;
use crate::lines::lemma_text_line_reads;
use crate::lines::plain_text;
use crate::model::Frame;
use crate::readback::lemma_frame_reads_back;
use crate::readback::lemma_not_null_form;
use crate::readback::reads_back;
use crate::scan::crlf;
use crate::waits::lemma_bulk_frame_waits;
use crate::waits::lemma_fixed_frame_waits;
use crate::waits::lemma_line_waits;
use crate::waits::lemma_sized_waits;
use crate::waits::lemma_text_frame_waits;
use crate::written::lemma_wire_entries_split;
use crate::written::lemma_wire_items_split;
use crate::written::wire_entries_from;
use crate::written::wire_items_from;
use vstd::prelude::*;
use vstd::utf8::encode_utf8;

verus! {

/// The first bytes of two pieces are the first bytes of the first piece, or
/// the first piece and the first bytes of the second.
pub proof fn lemma_cut_of_two(a: Seq<u8>, b: Seq<u8>, cut: int)
    requires
        0 <= cut <= a.len() + b.len(),
    ensures
        cut <= a.len() ==> (a + b).subrange(0, cut) == a.subrange(0, cut),
        cut >= a.len() ==> (a + b).subrange(0, cut) == a + b.subrange(0, cut - a.len()),
{
    if cut <= a.len() {
        assert((a + b).subrange(0, cut) =~= a.subrange(0, cut));
    }
    if cut >= a.len() {
        assert((a + b).subrange(0, cut) =~= a + b.subrange(0, cut - a.len()));
    }
}

/// Frames are not read where the first fails.
pub proof fn lemma_items_fail_first(d: Seq<u8>, n: nat, e: Failure)
    requires
        n > 0,
        d.len() > 0,
        parse_frame(d) == Err::<(Frame, int), Failure>(e),
    ensures
        parse_items(d, n) == Err::<(Seq<Frame>, int), Failure>(e),
{
}

/// Frames are not read where one behind the first fails.
pub proof fn lemma_items_fail_later(d: Seq<u8>, n: nat, first: Frame, used: int, e: Failure)
    requires
        n > 0,
        0 <= used <= d.len(),
        parse_frame(d) == Ok::<(Frame, int), Failure>((first, used)),
        parse_items(d.skip(used), (n - 1) as nat) == Err::<(Seq<Frame>, int), Failure>(e),
    ensures
        parse_items(d, n) == Err::<(Seq<Frame>, int), Failure>(e),
{
}

/// Pairs are not read where the first key fails.
pub proof fn lemma_pairs_fail_key(d: Seq<u8>, n: nat, e: Failure)
    requires
        n > 0,
        parse_simple_string(d) == Err::<(Seq<char>, int), Failure>(e),
    ensures
        parse_pairs(d, n) == Err::<(Seq<(Seq<char>, Frame)>, int), Failure>(e),
{
}

/// Pairs are not complete where the buffer ends behind the first key.
pub proof fn lemma_pairs_wait_value(d: Seq<u8>, n: nat, key: Seq<char>)
    requires
        n > 0,
        parse_simple_string(d) == Ok::<(Seq<char>, int), Failure>((key, d.len() as int)),
    ensures
        parse_pairs(d, n) == Err::<(Seq<(Seq<char>, Frame)>, int), Failure>(
            Failure::NotComplete,
        ),
{
}

/// Pairs are not read where the first value fails.
pub proof fn lemma_pairs_fail_value(d: Seq<u8>, n: nat, key: Seq<char>, used: int, e: Failure)
    requires
        n > 0,
        0 <= used < d.len(),
        parse_simple_string(d) == Ok::<(Seq<char>, int), Failure>((key, used)),
        parse_frame(d.skip(used)) == Err::<(Frame, int), Failure>(e),
    ensures
        parse_pairs(d, n) == Err::<(Seq<(Seq<char>, Frame)>, int), Failure>(e),
{
}

/// Pairs are not read where one behind the first fails.
pub proof fn lemma_pairs_fail_later(
    d: Seq<u8>,
    n: nat,
    key: Seq<char>,
    key_used: int,
    value: Frame,
    value_used: int,
    e: Failure,
)
    requires
        n > 0,
        0 <= key_used < d.len(),
        0 <= value_used <= d.len() - key_used,
        parse_simple_string(d) == Ok::<(Seq<char>, int), Failure>((key, key_used)),
        parse_frame(d.skip(key_used)) == Ok::<(Frame, int), Failure>((value, value_used)),
        parse_pairs(d.skip(key_used + value_used), (n - 1) as nat) == Err::<
            (Seq<(Seq<char>, Frame)>, int),
            Failure,
        >(e),
    ensures
        parse_pairs(d, n) == Err::<(Seq<(Seq<char>, Frame)>, int), Failure>(e),
{
}

/// A container is not read where its first line fails.
pub proof fn lemma_sequence_fail_header(s: Seq<u8>, prefix: u8, e: Failure)
    requires
        parse_header(s, prefix) == Err::<(int, usize), Failure>(e),
    ensures
        parse_sequence(s, prefix) == Err::<(Seq<Frame>, int), Failure>(e),
        prefix == MAP ==> parse_map(s) == Err::<(Seq<(Seq<char>, Frame)>, int), Failure>(e),
{
}

/// A container of frames is not read where one of its elements fails.
pub proof fn lemma_sequence_fail_items(s: Seq<u8>, prefix: u8, start: int, n: usize, e: Failure)
    requires
        0 < start <= s.len(),
        parse_header(s, prefix) == Ok::<(int, usize), Failure>((start, n)),
        parse_items(s.skip(start), n as nat) == Err::<(Seq<Frame>, int), Failure>(e),
    ensures
        parse_sequence(s, prefix) == Err::<(Seq<Frame>, int), Failure>(e),
{
}

/// A map is not read where one of its entries fails.
pub proof fn lemma_map_fail_pairs(s: Seq<u8>, start: int, n: usize, e: Failure)
    requires
        0 < start <= s.len(),
        parse_header(s, MAP) == Ok::<(int, usize), Failure>((start, n)),
        parse_pairs(s.skip(start), n as nat) == Err::<(Seq<(Seq<char>, Frame)>, int), Failure>(
            e,
        ),
    ensures
        parse_map(s) == Err::<(Seq<(Seq<char>, Frame)>, int), Failure>(e),
{
}

/// What a buffer that starts with `*` and holds no null array, nor the
/// first bytes of one, reads as.
pub proof fn lemma_frame_of_array(s: Seq<u8>)
    requires
        s.len() > 0,
        s[0] == ARRAY,
        parse_fixed(s, null_array_bytes(), "NullArray"@) matches Err(Failure::InvalidFrameType(_)),
    ensures
        match parse_sequence(s, ARRAY) {
            Ok((items, used)) => parse_frame(s) == Ok::<(Frame, int), Failure>(
                (Frame::Array(items), used),
            ),
            Err(e) => parse_frame(s) == Err::<(Frame, int), Failure>(e),
        },
{
}

/// What a buffer that starts with `~` reads as.
pub proof fn lemma_frame_of_set(s: Seq<u8>)
    requires
        s.len() > 0,
        s[0] == SET,
    ensures
        match parse_sequence(s, SET) {
            Ok((items, used)) => parse_frame(s) == Ok::<(Frame, int), Failure>(
                (Frame::RespSet(items), used),
            ),
            Err(e) => parse_frame(s) == Err::<(Frame, int), Failure>(e),
        },
{
}

/// What a buffer that starts with `%` reads as.
pub proof fn lemma_frame_of_map(s: Seq<u8>)
    requires
        s.len() > 0,
        s[0] == MAP,
    ensures
        match parse_map(s) {
            Ok((entries, used)) => parse_frame(s) == Ok::<(Frame, int), Failure>(
                (Frame::RespMap(entries), used),
            ),
            Err(e) => parse_frame(s) == Err::<(Frame, int), Failure>(e),
        },
{
}

/// A buffer that ends inside the frames from index `i` on is not complete.
pub proof fn lemma_cut_items(items: Seq<Frame>, i: nat, cut: int)
    requires
        i <= items.len(),
        forall|j: int| 0 <= j < items.len() ==> reads_back(#[trigger] items[j]),
        0 <= cut < wire_items_from(items, i).len(),
    ensures
        parse_items(wire_items_from(items, i).subrange(0, cut), (items.len() - i) as nat) == Err::<
            (Seq<Frame>, int),
            Failure,
        >(Failure::NotComplete),
    decreases items, items.len() - i,
{
    let all = wire_items_from(items, i);
    let d = all.subrange(0, cut);
    let n = (items.len() - i) as nat;
    let e = items[i as int];
    let w = wire_frame(e);
    let after = wire_items_from(items, i + 1);
    let len = w.len() as int;
    lemma_cut_of_two(w, after, cut);
    if cut == 0 {
    } else if cut < len {
        lemma_cut_frame(e, cut);
        lemma_items_fail_first(d, n, Failure::NotComplete);
    } else {
        let part = after.subrange(0, cut - len);
        lemma_frame_reads_back(e, part);
        assert(d.skip(len) =~= part);
        lemma_cut_items(items, i + 1, cut - len);
        lemma_items_fail_later(d, n, e, len, Failure::NotComplete);
    }
}

/// A buffer that ends inside the key of an entry is not complete.
pub proof fn lemma_cut_in_key(key: Seq<char>, behind: Seq<u8>, n: nat, cut: int)
    requires
        n > 0,
        plain_text(key),
        0 <= cut < wire_text_line(SIMPLE_STRING, key).len(),
    ensures
        parse_pairs((wire_text_line(SIMPLE_STRING, key) + behind).subrange(0, cut), n) == Err::<
            (Seq<(Seq<char>, Frame)>, int),
            Failure,
        >(Failure::NotComplete),
{
    let all = wire_text_line(SIMPLE_STRING, key) + behind;
    let d = all.subrange(0, cut);
    if cut > 0 {
        assert(all =~= seq![SIMPLE_STRING] + encode_utf8(key) + crlf() + behind);
        lemma_line_waits(SIMPLE_STRING, encode_utf8(key), behind, cut);
    }
    lemma_pairs_fail_key(d, n, Failure::NotComplete);
}

/// A buffer that ends inside the entries from index `i` on is not complete.
pub proof fn lemma_cut_pairs(entries: Seq<(Seq<char>, Frame)>, i: nat, cut: int)
    requires
        i <= entries.len(),
        forall|j: int|
            0 <= j < entries.len() ==> plain_text((#[trigger] entries[j]).0) && reads_back(
                entries[j].1,
            ),
        0 <= cut < wire_entries_from(entries, i).len(),
    ensures
        parse_pairs(
            wire_entries_from(entries, i).subrange(0, cut),
            (entries.len() - i) as nat,
        ) == Err::<(Seq<(Seq<char>, Frame)>, int), Failure>(Failure::NotComplete),
    decreases entries, entries.len() - i,
{
    let all = wire_entries_from(entries, i);
    let d = all.subrange(0, cut);
    let n = (entries.len() - i) as nat;
    let entry = entries[i as int];
    let key = wire_text_line(SIMPLE_STRING, entry.0);
    let w = wire_frame(entry.1);
    let after = wire_entries_from(entries, i + 1);
    let key_len = key.len() as int;
    let len = w.len() as int;
    let behind = w + after;
    assert(all =~= key + behind);
    if cut < key_len {
        lemma_cut_in_key(entry.0, behind, n, cut);
    } else {
        let value_cut = cut - key_len;
        let part = behind.subrange(0, value_cut);
        lemma_cut_of_two(key, behind, cut);
        lemma_cut_of_two(w, after, value_cut);
        lemma_text_line_reads(SIMPLE_STRING, entry.0, part);
        assert(d.skip(key_len) =~= part);
        if value_cut == 0 {
            assert(d =~= key);
            lemma_pairs_wait_value(d, n, entry.0);
        } else if value_cut < len {
            lemma_cut_frame(entry.1, value_cut);
            lemma_pairs_fail_value(d, n, entry.0, key_len, Failure::NotComplete);
        } else {
            let last = after.subrange(0, value_cut - len);
            lemma_frame_reads_back(entry.1, last);
            assert(d.skip(key_len + len) =~= last);
            lemma_cut_pairs(entries, i + 1, value_cut - len);
            lemma_pairs_fail_later(d, n, entry.0, key_len, entry.1, len, Failure::NotComplete);
        }
    }
}

/// A buffer that ends inside a container of frames is not complete.
pub proof fn lemma_cut_sequence(prefix: u8, items: Seq<Frame>, cut: int)
    requires
        prefix == ARRAY || prefix == SET,
        items.len() <= usize::MAX,
        forall|j: int| 0 <= j < items.len() ==> reads_back(#[trigger] items[j]),
        0 < cut < (wire_header(prefix, items.len()) + wire_items(items, items.len())).len(),
    ensures
        ({
            let whole = wire_header(prefix, items.len()) + wire_items(items, items.len());
            let p = whole.subrange(0, cut);
            &&& p[0] == prefix
            &&& cut >= 2 ==> p[1] != 45u8
            &&& parse_sequence(p, prefix) == Err::<(Seq<Frame>, int), Failure>(
                Failure::NotComplete,
            )
        }),
    decreases items, items.len() + 1,
{
    let n = items.len();
    let header = wire_header(prefix, n);
    let body = wire_items(items, n);
    let p = (header + body).subrange(0, cut);
    let start = header.len() as int;
    lemma_sized_waits(prefix, n, body, cut);
    lemma_wire_items_split(items, 0);
    assert(body =~= wire_items_from(items, 0));
    if cut < start {
        lemma_sequence_fail_header(p, prefix, Failure::NotComplete);
    } else {
        match parse_header(p, prefix) {
            Err(e) => {
                lemma_sequence_fail_header(p, prefix, e);
            },
            Ok(_) => {
                lemma_cut_items(items, 0, cut - start);
                lemma_sequence_fail_items(p, prefix, start, n as usize, Failure::NotComplete);
            },
        }
    }
}

/// A buffer that ends inside a map is not complete.
pub proof fn lemma_cut_map(entries: Seq<(Seq<char>, Frame)>, cut: int)
    requires
        entries.len() <= usize::MAX,
        forall|j: int|
            0 <= j < entries.len() ==> plain_text((#[trigger] entries[j]).0) && reads_back(
                entries[j].1,
            ),
        0 < cut < (wire_header(MAP, entries.len()) + wire_entries(entries, entries.len())).len(),
    ensures
        ({
            let whole = wire_header(MAP, entries.len()) + wire_entries(entries, entries.len());
            let p = whole.subrange(0, cut);
            &&& p[0] == MAP
            &&& parse_map(p) == Err::<(Seq<(Seq<char>, Frame)>, int), Failure>(
                Failure::NotComplete,
            )
        }),
    decreases entries, entries.len() + 1,
{
    let n = entries.len();
    let header = wire_header(MAP, n);
    let body = wire_entries(entries, n);
    let p = (header + body).subrange(0, cut);
    let start = header.len() as int;
    lemma_sized_waits(MAP, n, body, cut);
    lemma_wire_entries_split(entries, 0);
    assert(body =~= wire_entries_from(entries, 0));
    if cut < start {
        lemma_sequence_fail_header(p, MAP, Failure::NotComplete);
    } else {
        match parse_header(p, MAP) {
            Err(e) => {
                lemma_sequence_fail_header(p, MAP, e);
            },
            Ok(_) => {
                lemma_cut_pairs(entries, 0, cut - start);
                lemma_map_fail_pairs(p, start, n as usize, Failure::NotComplete);
            },
        }
    }
}

/// A buffer that ends inside a frame that reads back is not complete.
pub proof fn lemma_cut_frame(f: Frame, cut: int)
    requires
        reads_back(f),
        0 < cut < wire_frame(f).len(),
    ensures
        parse_frame(wire_frame(f).subrange(0, cut)) == Err::<(Frame, int), Failure>(
            Failure::NotComplete,
        ),
    decreases f, 0nat,
{
    let p = wire_frame(f).subrange(0, cut);
    match f {
        Frame::Array(items) => {
            lemma_cut_array(items, cut);
        },
        Frame::RespSet(items) => {
            lemma_cut_sequence(SET, items, cut);
            lemma_frame_of_set(p);
        },
        Frame::RespMap(entries) => {
            lemma_cut_map(entries, cut);
            lemma_frame_of_map(p);
        },
        Frame::SimpleString(_) => lemma_text_frame_waits(f, cut),
        Frame::Error(_) => lemma_text_frame_waits(f, cut),
        Frame::Double(_) => lemma_text_frame_waits(f, cut),
        Frame::BulkString(payload) => lemma_bulk_frame_waits(payload, cut),
        Frame::BulkError(_) => {},
        Frame::Integer(_) => {},
        _ => lemma_fixed_frame_waits(f, cut),
    }
}

/// A buffer that ends inside an array is not complete.
pub proof fn lemma_cut_array(items: Seq<Frame>, cut: int)
    requires
        reads_back(Frame::Array(items)),
        0 < cut < wire_frame(Frame::Array(items)).len(),
    ensures
        parse_frame(wire_frame(Frame::Array(items)).subrange(0, cut)) == Err::<
            (Frame, int),
            Failure,
        >(Failure::NotComplete),
    decreases items, items.len() + 2,
{
    let p = wire_frame(Frame::Array(items)).subrange(0, cut);
    lemma_cut_sequence(ARRAY, items, cut);
    if cut >= 2 {
        lemma_not_null_form(p);
        lemma_frame_of_array(p);
    } else {
        assert(p =~= null_array_bytes().subrange(0, 1));
    }
}

} // verus!
