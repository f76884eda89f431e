//! How the first line of a frame is found in what was written.
use crate::error::Failure;
use crate::grammar::parse_length_line;
use crate::grammar::parse_line_end;
use crate::grammar::parse_text_line;
use crate::grammar::wire_header;
use crate::grammar::wire_text_line;
use crate::numeral::decimal;
use crate::numeral::lemma_count_field_of_decimal;
use crate::numeral::lemma_decimal_digits;
use crate::scan::crlf;
use crate::scan::crlf_count;
use crate::scan::is_crlf_at;
use crate::scan::is_nth_crlf;
use crate::scan::lemma_nth_crlf_is;
use crate::scan::lemma_nth_crlf_none;
use crate::scan::nth_crlf;
use vstd::prelude::*;
use vstd::utf8::encode_utf8;


verus! {


/// No line terminator starts in `s`.
pub open spec fn no_crlf(s: Seq<u8>) -> bool {
    forall|j: int| !is_crlf_at(s, j)
}

/// A text that can stand on a line: its bytes hold no line terminator.
pub open spec fn plain_text(text: Seq<char>) -> bool {
    no_crlf(encode_utf8(text))
}

/// A range without line terminators counts none.
pub proof fn lemma_crlf_count_zero(s: Seq<u8>, from: int, to: int)
    requires
        forall|j: int| from <= j < to ==> !is_crlf_at(s, j),
    ensures
        crlf_count(s, from, to) == 0,
    decreases to - from,
{
    if from < to {
        lemma_crlf_count_zero(s, from, to - 1);
    }
}

/// After a head that holds no line terminator, the first terminator that
/// is found is the one that follows the head.
pub proof fn lemma_first_crlf(head: Seq<u8>, rest: Seq<u8>)
    requires
        head.len() >= 1,
        no_crlf(head.skip(1)),
    ensures
        nth_crlf(head + crlf() + rest, 1) == Some(head.len() as int),
{
    let s = head + crlf() + rest;
    let end = head.len() as int;
    assert forall|j: int| 1 <= j < end implies !is_crlf_at(s, j) by {
        if j + 1 < end {
            assert(!is_crlf_at(head.skip(1), j - 1));
            assert(head.skip(1)[j - 1] == s[j]);
            assert(head.skip(1)[j] == s[j + 1]);
        } else {
            assert(s[j + 1] == 13u8);
        }
    }
    lemma_crlf_count_zero(s, 1, end);
    assert(s[end] == 13u8 && s[end + 1] == 10u8);
    assert(is_nth_crlf(s, 1, end));
    lemma_nth_crlf_is(s, 1, end);
}

/// A buffer that ends before the terminator of its first line holds none.
pub proof fn lemma_no_first_crlf(head: Seq<u8>, rest: Seq<u8>, cut: int)
    requires
        head.len() >= 1,
        no_crlf(head.skip(1)),
        0 <= cut <= head.len() + 1,
    ensures
        nth_crlf((head + crlf() + rest).subrange(0, cut), 1) is None,
{
    let s = head + crlf() + rest;
    let p = s.subrange(0, cut);
    let end = head.len() as int;
    assert forall|j: int| 1 <= j < cut implies !is_crlf_at(p, j) by {
        if j + 1 < cut {
            if j + 1 < end {
                assert(!is_crlf_at(head.skip(1), j - 1));
                assert(head.skip(1)[j - 1] == p[j]);
                assert(head.skip(1)[j] == p[j + 1]);
            } else {
                assert(p[j + 1] == 13u8);
            }
        }
    }
    lemma_crlf_count_zero(p, 1, cut);
    lemma_nth_crlf_none(p, 1);
}

/// The digits of a count hold no line terminator.
pub proof fn lemma_decimal_no_crlf(n: nat)
    ensures
        no_crlf(decimal(n)),
{
    lemma_decimal_digits(n);
    assert forall|j: int| !is_crlf_at(decimal(n), j) by {
        if 0 <= j < decimal(n).len() {
            assert(48 <= decimal(n)[j] <= 57);
        }
    }
}

/// A line of plain text reads as that text, whatever follows it.
pub proof fn lemma_text_line_reads(prefix: u8, text: Seq<char>, rest: Seq<u8>)
    requires
        plain_text(text),
    ensures
        parse_text_line(wire_text_line(prefix, text) + rest, prefix) == Ok::<
            (Seq<char>, int),
            Failure,
        >((text, wire_text_line(prefix, text).len() as int)),
        parse_line_end(wire_text_line(prefix, text) + rest, prefix) == Ok::<int, Failure>(
            1 + encode_utf8(text).len() as int,
        ),
{
    let payload = encode_utf8(text);
    let head = seq![prefix] + payload;
    let s = wire_text_line(prefix, text) + rest;
    assert(head.skip(1) =~= payload);
    assert(s =~= head + crlf() + rest);
    lemma_first_crlf(head, rest);
    assert(s.subrange(1, head.len() as int) =~= payload);
    vstd::utf8::encode_utf8_valid_utf8(text);
    vstd::utf8::encode_utf8_decode_utf8(text);
}

/// The first line of a sized frame reads as the count that was written.
pub proof fn lemma_length_line_reads(prefix: u8, n: nat, rest: Seq<u8>)
    requires
        n <= usize::MAX,
    ensures
        parse_length_line(wire_header(prefix, n) + rest, prefix) == Ok::<(int, usize), Failure>(
            (1 + decimal(n).len() as int, n as usize),
        ),
        wire_header(prefix, n).len() == 1 + decimal(n).len() + 2,
        (wire_header(prefix, n) + rest)[1] != 45u8,
{
    let head = seq![prefix] + decimal(n);
    let s = wire_header(prefix, n) + rest;
    lemma_decimal_no_crlf(n);
    lemma_decimal_digits(n);
    assert(head.skip(1) =~= decimal(n));
    assert(s =~= head + crlf() + rest);
    lemma_first_crlf(head, rest);
    assert(s.subrange(1, head.len() as int) =~= decimal(n));
    lemma_count_field_of_decimal(n);
    assert(s[1] == decimal(n)[0]);
}

} // verus!
