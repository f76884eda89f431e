//! What reading a buffer has to do with reading a longer one: a value that
//! was read is read again, and takes the same bytes, when more bytes have
//! arrived behind it.
use crate::error::Failure;
use crate::grammar::false_bytes;
use crate::grammar::null_array_bytes;
use crate::grammar::null_bulk_string_bytes;
use crate::grammar::null_bytes;
use crate::grammar::parse_boolean;
use crate::grammar::parse_bulk_string;
use crate::grammar::parse_double;
use crate::grammar::parse_fixed;
use crate::grammar::parse_frame;
use crate::grammar::parse_header;
use crate::grammar::parse_integer;
use crate::grammar::parse_items;
use crate::grammar::parse_length_line;
use crate::grammar::parse_line_end;
use crate::grammar::parse_map;
use crate::grammar::parse_null;
use crate::grammar::parse_pairs;
use crate::grammar::parse_sequence;
use crate::grammar::parse_simple_string;
use crate::grammar::parse_text_line;
use crate::grammar::terminators_wanted;
use crate::grammar::true_bytes;
use crate::grammar::ARRAY;
use crate::grammar::BOOLEAN;
use crate::grammar::BULK_ERROR;
use crate::grammar::BULK_STRING;
use crate::grammar::DOUBLE;
use crate::grammar::INTEGER;
use crate::grammar::MAP;
use crate::grammar::NULL;
use crate::grammar::SET;
use crate::grammar::SIMPLE_ERROR;
use crate::grammar::SIMPLE_STRING;
use crate::scan::is_crlf_at;
use crate::scan::is_nth_crlf;
use crate::scan::lemma_crlf_count_agree;
use crate::scan::lemma_nth_crlf_is;
use crate::scan::nth_crlf;
use vstd::prelude::*;

verus! {

/// The buffer `s` starts with the bytes of `p`.
pub open spec fn starts(s: Seq<u8>, p: Seq<u8>) -> bool {
    p.len() <= s.len() && s.subrange(0, p.len() as int) == p
}

/// A buffer and a longer one agree on the bytes of the shorter.
pub proof fn lemma_starts_index(s: Seq<u8>, p: Seq<u8>, j: int)
    requires
        starts(s, p),
        0 <= j < p.len(),
    ensures
        s[j] == p[j],
{
    assert(s.subrange(0, p.len() as int)[j] == s[j]);
}

/// What is left of a buffer behind a point starts what is left of a longer
/// one.
pub proof fn lemma_starts_skip(s: Seq<u8>, p: Seq<u8>, at: int)
    requires
        starts(s, p),
        0 <= at <= p.len(),
    ensures
        starts(s.skip(at), p.skip(at)),
{
    assert forall|j: int| 0 <= j < p.len() - at implies s.skip(at).subrange(
        0,
        p.skip(at).len() as int,
    )[j] == p.skip(at)[j] by {
        lemma_starts_index(s, p, j + at);
    }
    assert(s.skip(at).subrange(0, p.skip(at).len() as int) =~= p.skip(at));
}

/// A part of a buffer is the same part of a longer one.
pub proof fn lemma_starts_subrange(s: Seq<u8>, p: Seq<u8>, from: int, to: int)
    requires
        starts(s, p),
        0 <= from <= to <= p.len(),
    ensures
        s.subrange(from, to) == p.subrange(from, to),
{
    assert forall|j: int| 0 <= j < to - from implies s.subrange(from, to)[j] == p.subrange(
        from,
        to,
    )[j] by {
        lemma_starts_index(s, p, j + from);
    }
    assert(s.subrange(from, to) =~= p.subrange(from, to));
}

/// A line terminator that was found is found again.
pub proof fn lemma_nth_crlf_extends(s: Seq<u8>, p: Seq<u8>, n: nat, at: int)
    requires
        starts(s, p),
        nth_crlf(p, n) == Some(at),
    ensures
        nth_crlf(s, n) == Some(at),
        1 <= at,
        at + 2 <= p.len(),
{
    crate::scan::lemma_nth_crlf_found(p, n);
    assert forall|j: int| 1 <= j < at + 1 implies is_crlf_at(p, j) == is_crlf_at(s, j) by {
        lemma_starts_index(s, p, j);
        lemma_starts_index(s, p, j + 1);
    }
    lemma_crlf_count_agree(p, s, 1, at + 1);
    lemma_starts_index(s, p, at);
    lemma_starts_index(s, p, at + 1);
    assert(is_nth_crlf(s, n, at));
    lemma_nth_crlf_is(s, n, at);
}

/// The end of a first line that was found is found again.
pub proof fn lemma_line_end_extends(s: Seq<u8>, p: Seq<u8>, prefix: u8, end: int)
    requires
        starts(s, p),
        parse_line_end(p, prefix) == Ok::<int, Failure>(end),
    ensures
        parse_line_end(s, prefix) == Ok::<int, Failure>(end),
        1 <= end,
        end + 2 <= p.len(),
        s.subrange(1, end) == p.subrange(1, end),
{
    lemma_starts_index(s, p, 0);
    lemma_nth_crlf_extends(s, p, 1, end);
    lemma_starts_subrange(s, p, 1, end);
}

/// Whether a buffer starts with given bytes stays as it is once the buffer
/// can tell.
pub proof fn lemma_fixed_extends(s: Seq<u8>, p: Seq<u8>, expect: Seq<u8>, expect_type: Seq<char>)
    requires
        starts(s, p),
        parse_fixed(p, expect, expect_type) != Err::<(), Failure>(Failure::NotComplete),
    ensures
        parse_fixed(p, expect, expect_type) is Ok ==> parse_fixed(s, expect, expect_type) is Ok,
        parse_fixed(p, expect, expect_type) is Err ==> parse_fixed(s, expect, expect_type)
            matches Err(Failure::InvalidFrameType(_)),
{
    if p.len() >= expect.len() {
        lemma_starts_subrange(s, p, 0, expect.len() as int);
    } else {
        // `p` differs from `expect` in a byte that it holds, and so does `s`.
        let front = expect.subrange(0, p.len() as int);
        if forall|j: int| 0 <= j < p.len() ==> p[j] == front[j] {
            assert(p =~= front);
        }
        let j = choose|j: int| 0 <= j < p.len() && p[j] != front[j];
        lemma_starts_index(s, p, j);
        if s.len() >= expect.len() {
            assert(s.subrange(0, expect.len() as int)[j] == s[j]);
        } else {
            assert(expect.subrange(0, s.len() as int)[j] == expect[j]);
        }
    }
}

/// A line of text that was read is read again.
pub proof fn lemma_text_line_extends(s: Seq<u8>, p: Seq<u8>, prefix: u8)
    requires
        starts(s, p),
        parse_text_line(p, prefix) is Ok,
    ensures
        parse_text_line(s, prefix) == parse_text_line(p, prefix),
        0 < parse_text_line(p, prefix)->Ok_0.1 <= p.len(),
{
    match parse_line_end(p, prefix) {
        Ok(end) => {
            lemma_line_end_extends(s, p, prefix, end);
        },
        Err(_) => {},
    }
}

/// An integer that was read is read again.
pub proof fn lemma_integer_extends(s: Seq<u8>, p: Seq<u8>)
    requires
        starts(s, p),
        parse_integer(p) is Ok,
    ensures
        parse_integer(s) == parse_integer(p),
        0 < parse_integer(p)->Ok_0.1 <= p.len(),
{
    match parse_line_end(p, INTEGER) {
        Ok(end) => {
            lemma_line_end_extends(s, p, INTEGER, end);
        },
        Err(_) => {},
    }
}

/// A double that was read is read again.
pub proof fn lemma_double_extends(s: Seq<u8>, p: Seq<u8>)
    requires
        starts(s, p),
        parse_double(p) is Ok,
    ensures
        parse_double(s) == parse_double(p),
        0 < parse_double(p)->Ok_0.1 <= p.len(),
{
    match parse_line_end(p, DOUBLE) {
        Ok(end) => {
            lemma_line_end_extends(s, p, DOUBLE, end);
        },
        Err(_) => {},
    }
}

/// A boolean that was read is read again.
pub proof fn lemma_boolean_extends(s: Seq<u8>, p: Seq<u8>)
    requires
        starts(s, p),
        parse_boolean(p) is Ok,
    ensures
        parse_boolean(s) == parse_boolean(p),
        0 < parse_boolean(p)->Ok_0.1 <= p.len(),
{
    lemma_fixed_extends(s, p, true_bytes(), "Bool"@);
    if parse_fixed(p, true_bytes(), "Bool"@) is Err {
        lemma_fixed_extends(s, p, false_bytes(), "Bool"@);
    }
}

/// A null that was read is read again.
pub proof fn lemma_null_extends(s: Seq<u8>, p: Seq<u8>)
    requires
        starts(s, p),
        parse_null(p) is Ok,
    ensures
        parse_null(s) == parse_null(p),
        0 < parse_null(p)->Ok_0.1 <= p.len(),
{
    lemma_fixed_extends(s, p, null_bytes(), "Null"@);
}

/// A length that was read is read again.
pub proof fn lemma_length_line_extends(s: Seq<u8>, p: Seq<u8>, prefix: u8)
    requires
        starts(s, p),
        parse_length_line(p, prefix) is Ok,
    ensures
        parse_length_line(s, prefix) == parse_length_line(p, prefix),
        1 <= parse_length_line(p, prefix)->Ok_0.0,
        parse_length_line(p, prefix)->Ok_0.0 + 2 <= p.len(),
{
    match parse_line_end(p, prefix) {
        Ok(end) => {
            lemma_line_end_extends(s, p, prefix, end);
        },
        Err(_) => {},
    }
}

/// A bulk string that was read is read again.
pub proof fn lemma_bulk_string_extends(s: Seq<u8>, p: Seq<u8>)
    requires
        starts(s, p),
        parse_bulk_string(p) is Ok,
    ensures
        parse_bulk_string(s) == parse_bulk_string(p),
        0 < parse_bulk_string(p)->Ok_0.1 <= p.len(),
{
    lemma_length_line_extends(s, p, BULK_STRING);
    match parse_length_line(p, BULK_STRING) {
        Ok((end, len)) => {
            lemma_starts_subrange(s, p, end + 2, end + 2 + len);
        },
        Err(_) => {},
    }
}

/// A first line of a container that passed the check on what follows it
/// passes it again.
pub proof fn lemma_header_extends(s: Seq<u8>, p: Seq<u8>, prefix: u8)
    requires
        starts(s, p),
        parse_header(p, prefix) is Ok,
    ensures
        parse_header(s, prefix) == parse_header(p, prefix),
        0 < parse_header(p, prefix)->Ok_0.0 <= p.len(),
{
    lemma_length_line_extends(s, p, prefix);
    match parse_length_line(p, prefix) {
        Ok((end, len)) => {
            let wanted = terminators_wanted(prefix, len);
            if wanted > 0 {
                lemma_starts_skip(s, p, end + 1);
                match nth_crlf(p.skip(end + 1), wanted) {
                    Some(at) => {
                        lemma_nth_crlf_extends(s.skip(end + 1), p.skip(end + 1), wanted, at);
                    },
                    None => {},
                }
            }
        },
        Err(_) => {},
    }
}

/// A frame that was read is read again, and takes the same bytes, when
/// more bytes stand behind it.
pub proof fn lemma_frame_extends(s: Seq<u8>, p: Seq<u8>)
    requires
        starts(s, p),
        parse_frame(p) is Ok,
    ensures
        parse_frame(s) == parse_frame(p),
        0 < parse_frame(p)->Ok_0.1 <= p.len(),
    decreases p.len(), 2nat,
{
    lemma_starts_index(s, p, 0);
    let first = p[0];
    if first == SIMPLE_STRING {
        lemma_text_line_extends(s, p, SIMPLE_STRING);
    } else if first == SIMPLE_ERROR {
        lemma_text_line_extends(s, p, SIMPLE_ERROR);
    } else if first == ARRAY {
        if parse_fixed(p, null_array_bytes(), "NullArray"@) != Err::<(), Failure>(
            Failure::NotComplete,
        ) {
            lemma_fixed_extends(s, p, null_array_bytes(), "NullArray"@);
            if parse_fixed(p, null_array_bytes(), "NullArray"@) is Err {
                lemma_sequence_extends(s, p, ARRAY);
            }
        }
    } else if first == INTEGER {
        lemma_integer_extends(s, p);
    } else if first == BOOLEAN {
        lemma_boolean_extends(s, p);
    } else if first == BULK_STRING {
        if parse_fixed(p, null_bulk_string_bytes(), "NullBulkString"@) != Err::<(), Failure>(
            Failure::NotComplete,
        ) {
            lemma_fixed_extends(s, p, null_bulk_string_bytes(), "NullBulkString"@);
            if parse_fixed(p, null_bulk_string_bytes(), "NullBulkString"@) is Err {
                lemma_bulk_string_extends(s, p);
            }
        }
    } else if first == SET {
        lemma_sequence_extends(s, p, SET);
    } else if first == MAP {
        lemma_map_extends(s, p);
    } else if first == BULK_ERROR {
        lemma_text_line_extends(s, p, BULK_ERROR);
    } else if first == DOUBLE {
        lemma_double_extends(s, p);
    } else if first == NULL {
        lemma_null_extends(s, p);
    }
}

/// A container of frames that was read is read again.
pub proof fn lemma_sequence_extends(s: Seq<u8>, p: Seq<u8>, prefix: u8)
    requires
        starts(s, p),
        parse_sequence(p, prefix) is Ok,
    ensures
        parse_sequence(s, prefix) == parse_sequence(p, prefix),
        0 < parse_sequence(p, prefix)->Ok_0.1 <= p.len(),
    decreases p.len(), 0nat,
{
    lemma_header_extends(s, p, prefix);
    match parse_header(p, prefix) {
        Ok((start, len)) => {
            lemma_starts_skip(s, p, start);
            lemma_items_extends(s.skip(start), p.skip(start), len as nat);
        },
        Err(_) => {},
    }
}

/// Frames that were read are read again.
pub proof fn lemma_items_extends(s: Seq<u8>, p: Seq<u8>, n: nat)
    requires
        starts(s, p),
        parse_items(p, n) is Ok,
    ensures
        parse_items(s, n) == parse_items(p, n),
        0 <= parse_items(p, n)->Ok_0.1 <= p.len(),
    decreases p.len(), n + 3,
{
    if n > 0 {
        match parse_frame(p) {
            Ok((first, used)) => {
                lemma_frame_extends(s, p);
                lemma_starts_skip(s, p, used);
                lemma_items_extends(s.skip(used), p.skip(used), (n - 1) as nat);
            },
            Err(_) => {},
        }
    }
}

/// A map that was read is read again.
pub proof fn lemma_map_extends(s: Seq<u8>, p: Seq<u8>)
    requires
        starts(s, p),
        parse_map(p) is Ok,
    ensures
        parse_map(s) == parse_map(p),
        0 < parse_map(p)->Ok_0.1 <= p.len(),
    decreases p.len(), 0nat,
{
    lemma_header_extends(s, p, MAP);
    match parse_header(p, MAP) {
        Ok((start, len)) => {
            lemma_starts_skip(s, p, start);
            lemma_pairs_extends(s.skip(start), p.skip(start), len as nat);
        },
        Err(_) => {},
    }
}

/// Pairs that were read are read again.
pub proof fn lemma_pairs_extends(s: Seq<u8>, p: Seq<u8>, n: nat)
    requires
        starts(s, p),
        parse_pairs(p, n) is Ok,
    ensures
        parse_pairs(s, n) == parse_pairs(p, n),
        0 <= parse_pairs(p, n)->Ok_0.1 <= p.len(),
    decreases p.len(), n + 3,
{
    if n > 0 {
        lemma_text_line_extends(s, p, SIMPLE_STRING);
        match parse_simple_string(p) {
            Ok((key, key_used)) => {
                lemma_starts_skip(s, p, key_used);
                match parse_frame(p.skip(key_used)) {
                    Ok((value, value_used)) => {
                        lemma_frame_extends(s.skip(key_used), p.skip(key_used));
                        lemma_starts_skip(s, p, key_used + value_used);
                        lemma_pairs_extends(
                            s.skip(key_used + value_used),
                            p.skip(key_used + value_used),
                            (n - 1) as nat,
                        );
                    },
                    Err(_) => {},
                }
            },
            Err(_) => {},
        }
    }
}

} // verus!
