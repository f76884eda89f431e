//! The shape of what is written: where frames end, and how many line
//! terminators they hold.
use crate::grammar::wire_entries;
use crate::grammar::wire_frame;
use crate::grammar::wire_items;
use crate::grammar::wire_text_line;
use crate::grammar::SIMPLE_STRING;
use crate::model::Frame;
use crate::numeral::lemma_decimal_digits;
use crate::scan::crlf_count;
use crate::scan::is_crlf_at;
use crate::scan::is_nth_crlf;
use crate::scan::lemma_crlf_count_bound;
use crate::scan::lemma_crlf_count_split;
use crate::scan::lemma_nth_crlf_is;
use crate::scan::nth_crlf;
use vstd::prelude::*;
use vstd::utf8::encode_utf8;


verus! {
/// The bytes `w` end with a line terminator that does not start at their
/// first byte.
pub open spec fn ends_line(w: Seq<u8>) -> bool {
    w.len() >= 3 && w[w.len() - 2] == 13u8 && w[w.len() - 1] == 10u8
}

/// The bytes of the frames of `items` from index `i` on.
pub open spec fn wire_items_from(items: Seq<Frame>, i: nat) -> Seq<u8>
    decreases items.len() - i,
{
    if i >= items.len() {
        Seq::empty()
    } else {
        wire_frame(items[i as int]) + wire_items_from(items, i + 1)
    }
}

/// The bytes of the entries of `entries` from index `i` on.
pub open spec fn wire_entries_from(entries: Seq<(Seq<char>, Frame)>, i: nat) -> Seq<u8>
    decreases entries.len() - i,
{
    if i >= entries.len() {
        Seq::empty()
    } else {
        wire_text_line(SIMPLE_STRING, entries[i as int].0) + wire_frame(entries[i as int].1)
            + wire_entries_from(entries, i + 1)
    }
}

/// The bytes of some frames are those of the first `i` and those of the
/// others.
pub proof fn lemma_wire_items_split(items: Seq<Frame>, i: nat)
    requires
        i <= items.len(),
    ensures
        wire_items(items, items.len()) == wire_items(items, i) + wire_items_from(items, i),
    decreases items.len() - i,
{
    if i < items.len() {
        lemma_wire_items_split(items, i + 1);
        assert(wire_items(items, i + 1) == wire_items(items, i) + wire_frame(items[i as int]));
        assert(wire_items(items, i) + wire_frame(items[i as int]) + wire_items_from(items, i + 1)
            =~= wire_items(items, i) + wire_items_from(items, i));
    } else {
        assert(wire_items(items, i) + wire_items_from(items, i) =~= wire_items(items, i));
    }
}

/// The bytes of some entries are those of the first `i` and those of the
/// others.
pub proof fn lemma_wire_entries_split(entries: Seq<(Seq<char>, Frame)>, i: nat)
    requires
        i <= entries.len(),
    ensures
        wire_entries(entries, entries.len()) == wire_entries(entries, i) + wire_entries_from(
            entries,
            i,
        ),
    decreases entries.len() - i,
{
    if i < entries.len() {
        lemma_wire_entries_split(entries, i + 1);
        assert(wire_entries(entries, i + 1) == wire_entries(entries, i) + wire_text_line(
            SIMPLE_STRING,
            entries[i as int].0,
        ) + wire_frame(entries[i as int].1));
        assert(wire_entries(entries, i + 1) + wire_entries_from(entries, i + 1)
            =~= wire_entries(entries, i) + wire_entries_from(entries, i));
    } else {
        assert(wire_entries(entries, i) + wire_entries_from(entries, i) =~= wire_entries(
            entries,
            i,
        ));
    }
}

/// Every frame is written with a line terminator at its end.
pub proof fn lemma_wire_ends_line(f: Frame)
    ensures
        ends_line(wire_frame(f)),
    decreases f, 0nat,
{
    match f {
        Frame::Array(items) => {
            lemma_decimal_digits(items.len());
            lemma_wire_items_end(items, items.len());
        },
        Frame::RespSet(items) => {
            lemma_decimal_digits(items.len());
            lemma_wire_items_end(items, items.len());
        },
        Frame::RespMap(entries) => {
            lemma_decimal_digits(entries.len());
            lemma_wire_entries_end(entries, entries.len());
        },
        Frame::Integer(n) => {
            if n >= 0 {
                lemma_decimal_digits(n as nat);
            } else {
                lemma_decimal_digits((-n) as nat);
            }
        },
        Frame::BulkString(b) => {
            lemma_decimal_digits(b.len());
        },
        Frame::BulkError(t) => {
            lemma_decimal_digits(encode_utf8(t).len());
        },
        _ => {},
    }
}

/// The bytes of one frame or more end with a line terminator.
pub proof fn lemma_wire_items_end(items: Seq<Frame>, k: nat)
    requires
        k <= items.len(),
    ensures
        k > 0 ==> ends_line(wire_items(items, k)),
        k == 0 ==> wire_items(items, k).len() == 0,
    decreases items, k,
{
    if k > 0 {
        lemma_wire_ends_line(items[k - 1]);
    }
}

/// The bytes of one entry or more end with a line terminator.
pub proof fn lemma_wire_entries_end(entries: Seq<(Seq<char>, Frame)>, k: nat)
    requires
        k <= entries.len(),
    ensures
        k > 0 ==> ends_line(wire_entries(entries, k)),
        k == 0 ==> wire_entries(entries, k).len() == 0,
    decreases entries, k,
{
    if k > 0 {
        lemma_wire_ends_line(entries[k - 1].1);
    }
}

/// Counting in the second of two pieces is counting in that piece.
pub proof fn lemma_crlf_count_shift(a: Seq<u8>, b: Seq<u8>, from: int, to: int)
    requires
        0 <= from,
    ensures
        crlf_count(a + b, a.len() + from, a.len() + to) == crlf_count(b, from, to),
    decreases to - from,
{
    if from < to {
        lemma_crlf_count_shift(a, b, from, to - 1);
        let j = to - 1;
        if j + 1 < b.len() {
            assert((a + b)[a.len() + j] == b[j]);
            assert((a + b)[a.len() + j + 1] == b[j + 1]);
        }
    }
}

/// Bytes that end a line add a line terminator to what follows them.
pub proof fn lemma_chunk_terminator(w: Seq<u8>, rest: Seq<u8>)
    requires
        ends_line(w),
    ensures
        crlf_count(w + rest, 1, (w + rest).len() as int) >= 1 + crlf_count(
            rest,
            1,
            rest.len() as int,
        ),
{
    let d = w + rest;
    let n = w.len() as int;
    lemma_crlf_count_split(d, 1, n - 2, d.len() as int);
    lemma_crlf_count_split(d, n - 2, n - 1, d.len() as int);
    lemma_crlf_count_split(d, n - 1, n, d.len() as int);
    assert(is_crlf_at(d, n - 2));
    assert(crlf_count(d, n - 2, n - 1) == 1) by {
        assert(crlf_count(d, n - 2, n - 2) == 0);
    }
    lemma_crlf_count_shift(w, rest, 0, rest.len() as int);
    if rest.len() >= 1 {
        lemma_crlf_count_split(rest, 0, 1, rest.len() as int);
    } else {
        lemma_crlf_count_bound(rest, 1, rest.len() as int);
    }
}

/// A buffer that holds `n` line terminators after its first byte has an
/// `n`th.
pub proof fn lemma_nth_crlf_exists(s: Seq<u8>, n: nat, to: int)
    requires
        1 <= n <= crlf_count(s, 1, to),
    ensures
        nth_crlf(s, n) is Some,
    decreases to,
{
    if to <= 1 {
        lemma_crlf_count_bound(s, 1, to);
    } else if crlf_count(s, 1, to - 1) >= n {
        lemma_nth_crlf_exists(s, n, to - 1);
    } else {
        assert(is_nth_crlf(s, n, to - 1));
        lemma_nth_crlf_is(s, n, to - 1);
    }
}

/// The frames from index `i` on, and what follows them, hold a line
/// terminator for each frame.
pub proof fn lemma_items_terminators(items: Seq<Frame>, i: nat, rest: Seq<u8>)
    requires
        i <= items.len(),
    ensures
        crlf_count(
            wire_items_from(items, i) + rest,
            1,
            (wire_items_from(items, i) + rest).len() as int,
        ) >= items.len() - i,
    decreases items.len() - i,
{
    if i < items.len() {
        let w = wire_frame(items[i as int]);
        let after = wire_items_from(items, i + 1) + rest;
        lemma_items_terminators(items, i + 1, rest);
        lemma_wire_ends_line(items[i as int]);
        lemma_chunk_terminator(w, after);
        assert(wire_items_from(items, i) + rest =~= w + after);
    } else {
        lemma_crlf_count_bound(rest, 1, rest.len() as int);
        assert(wire_items_from(items, i) + rest =~= rest);
    }
}

/// The entries from index `i` on, and what follows them, hold two line
/// terminators for each entry.
pub proof fn lemma_entries_terminators(entries: Seq<(Seq<char>, Frame)>, i: nat, rest: Seq<u8>)
    requires
        i <= entries.len(),
    ensures
        crlf_count(
            wire_entries_from(entries, i) + rest,
            1,
            (wire_entries_from(entries, i) + rest).len() as int,
        ) >= 2 * (entries.len() - i),
    decreases entries.len() - i,
{
    if i < entries.len() {
        let key = wire_text_line(SIMPLE_STRING, entries[i as int].0);
        let w = wire_frame(entries[i as int].1);
        let after = wire_entries_from(entries, i + 1) + rest;
        lemma_entries_terminators(entries, i + 1, rest);
        lemma_wire_ends_line(entries[i as int].1);
        lemma_chunk_terminator(w, after);
        lemma_chunk_terminator(key, w + after);
        assert(wire_entries_from(entries, i) + rest =~= key + (w + after));
    } else {
        lemma_crlf_count_bound(rest, 1, rest.len() as int);
        assert(wire_entries_from(entries, i) + rest =~= rest);
    }
}

} // verus!
