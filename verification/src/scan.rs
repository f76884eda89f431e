//! Finding line ends in a buffer.
use crate::error::unexpected_frame_message;
use crate::error::unexpected_prefix_message;
use crate::error::Failure;
use crate::error::RespError;
use crate::grammar::parse_fixed;
use crate::grammar::parse_length_line;
use crate::grammar::parse_line_end;
use crate::grammar::parse_total_length;
use crate::grammar::terminators_wanted;
use crate::grammar::ARRAY;
use crate::grammar::MAP;
use crate::grammar::SET;
use crate::numeral::parse_usize;
use crate::text::string_from_utf8_lossy;
use vstd::prelude::*;
use vstd::slice::slice_subrange;
use vstd::string::StringSliceAdditionalSpecFns;
use vstd::utf8::encode_utf8;

verus! {

/// The two bytes that end a line.
pub open spec fn crlf() -> Seq<u8> {
    seq![13u8, 10u8]
}

/// A line terminator starts at index `i` of `s`.
pub open spec fn is_crlf_at(s: Seq<u8>, i: int) -> bool {
    0 <= i && i + 1 < s.len() && s[i] == 13u8 && s[i + 1] == 10u8
}

/// How many line terminators start at an index in `[from, to)`.
pub open spec fn crlf_count(s: Seq<u8>, from: int, to: int) -> nat
    decreases to - from,
{
    if to <= from {
        0
    } else {
        crlf_count(s, from, to - 1) + if is_crlf_at(s, to - 1) {
            1nat
        } else {
            0nat
        }
    }
}

/// Index `i` is where the `nth` line terminator starts, counting from one
/// and leaving out a terminator at index zero.
pub open spec fn is_nth_crlf(s: Seq<u8>, nth: nat, i: int) -> bool {
    1 <= i && is_crlf_at(s, i) && crlf_count(s, 1, i + 1) == nth
}

/// Where the `nth` line terminator after the first byte starts, if `s` holds
/// that many.
#[verifier::opaque]
pub open spec fn nth_crlf(s: Seq<u8>, nth: nat) -> Option<int> {
    if exists|i: int| is_nth_crlf(s, nth, i) {
        Some(choose|i: int| is_nth_crlf(s, nth, i))
    } else {
        None
    }
}

/// A range holds no more line terminators than indices, and an empty range
/// none.
pub proof fn lemma_crlf_count_bound(s: Seq<u8>, from: int, to: int)
    ensures
        from <= to ==> crlf_count(s, from, to) <= to - from,
        to <= from ==> crlf_count(s, from, to) == 0,
    decreases to - from,
{
    if from < to {
        lemma_crlf_count_bound(s, from, to - 1);
    }
}

/// The line terminators of a range are those of its two parts.
pub proof fn lemma_crlf_count_split(s: Seq<u8>, from: int, mid: int, to: int)
    requires
        from <= mid <= to,
    ensures
        crlf_count(s, from, to) == crlf_count(s, from, mid) + crlf_count(s, mid, to),
    decreases to - mid,
{
    if mid < to {
        lemma_crlf_count_split(s, from, mid, to - 1);
    }
}

/// Two buffers with the same terminators in a range count alike there.
pub proof fn lemma_crlf_count_agree(s: Seq<u8>, t: Seq<u8>, from: int, to: int)
    requires
        forall|j: int| from <= j < to ==> is_crlf_at(s, j) == is_crlf_at(t, j),
    ensures
        crlf_count(s, from, to) == crlf_count(t, from, to),
    decreases to - from,
{
    if from < to {
        lemma_crlf_count_agree(s, t, from, to - 1);
    }
}

/// Only one index is where the `nth` terminator starts.
pub proof fn lemma_nth_crlf_unique(s: Seq<u8>, nth: nat, i: int, j: int)
    requires
        is_nth_crlf(s, nth, i),
        is_nth_crlf(s, nth, j),
    ensures
        i == j,
{
    if i < j {
        lemma_crlf_count_split(s, 1, i + 1, j);
        lemma_crlf_count_bound(s, i + 1, j);
    } else if j < i {
        lemma_crlf_count_split(s, 1, j + 1, i);
        lemma_crlf_count_bound(s, j + 1, i);
    }
}

/// `nth_crlf` is the index that `is_nth_crlf` singles out.
pub proof fn lemma_nth_crlf_is(s: Seq<u8>, nth: nat, i: int)
    requires
        is_nth_crlf(s, nth, i),
    ensures
        nth_crlf(s, nth) == Some(i),
{
    reveal(nth_crlf);
    let j = choose|j: int| is_nth_crlf(s, nth, j);
    lemma_nth_crlf_unique(s, nth, i, j);
}

/// What `nth_crlf` finds is where the `nth` terminator starts; it finds
/// nothing only where there is no such index.
pub proof fn lemma_nth_crlf_found(s: Seq<u8>, nth: nat)
    ensures
        match nth_crlf(s, nth) {
            Some(i) => is_nth_crlf(s, nth, i),
            None => forall|i: int| !is_nth_crlf(s, nth, i),
        },
{
    reveal(nth_crlf);
}

/// With fewer than `nth` terminators after the first byte there is no `nth`.
pub proof fn lemma_nth_crlf_none(s: Seq<u8>, nth: nat)
    requires
        nth == 0 || crlf_count(s, 1, s.len() as int) < nth,
    ensures
        nth_crlf(s, nth) is None,
{
    reveal(nth_crlf);
    assert forall|i: int| !is_nth_crlf(s, nth, i) by {
        if is_nth_crlf(s, nth, i) {
            lemma_crlf_count_split(s, 1, i + 1, s.len() as int);
        }
    }
}

/// Finds where the `nth` line terminator starts, counting from one and
/// searching from the second byte on.
///
/// Returns the index of its carriage return, or `None` when `nth` is zero or
/// the buffer holds fewer terminators.
pub fn find_crlf(buf: &[u8], nth: usize) -> (r: Option<usize>)
    ensures
        match r {
            Some(i) => nth_crlf(buf@, nth as nat) == Some(i as int) && is_nth_crlf(
                buf@,
                nth as nat,
                i as int,
            ),
            None => nth_crlf(buf@, nth as nat) is None && forall|i: int|
                !is_nth_crlf(buf@, nth as nat, i),
        },
{
    proof {
        lemma_nth_crlf_found(buf@, nth as nat);
    }
    if nth == 0 {
        proof {
            lemma_nth_crlf_none(buf@, 0);
        }
        return None;
    }
    let len: usize = buf.len();
    if len < 2 {
        proof {
            lemma_crlf_count_bound(buf@, 1, buf@.len() as int);
            lemma_nth_crlf_none(buf@, nth as nat);
        }
        return None;
    }
    let mut count: usize = 0;
    let mut i: usize = 1;
    while i + 1 < len
        invariant
            len == buf@.len(),
            1 <= i < len,
            count < nth,
            count == crlf_count(buf@, 1, i as int),
        decreases buf@.len() - i,
    {
        if buf[i] == 13 && buf[i + 1] == 10 {
            count += 1;
            if count == nth {
                proof {
                    lemma_nth_crlf_is(buf@, nth as nat, i as int);
                }
                return Some(i);
            }
        }
        i += 1;
    }
    proof {
        let len = buf@.len() as int;
        lemma_crlf_count_split(buf@, 1, i as int, len);
        assert(crlf_count(buf@, i as int, len) == 0) by {
            lemma_crlf_count_bound(buf@, i as int, len - 1);
        }
        lemma_nth_crlf_none(buf@, nth as nat);
    }
    None
}

/// Where a line ends lies inside the buffer, after its first byte.
pub proof fn lemma_line_end_bounds(s: Seq<u8>, prefix: u8)
    ensures
        match parse_line_end(s, prefix) {
            Ok(end) => 1 <= end && end + 2 <= s.len() && is_nth_crlf(s, 1, end) && s[0] == prefix,
            Err(e) => e == Failure::NotComplete || e is InvalidFrameType,
        },
{
    lemma_nth_crlf_found(s, 1);
}

/// Whether `buf` starts with `expect`.
pub fn starts_with(buf: &[u8], expect: &[u8]) -> (r: bool)
    ensures
        r == (expect@.len() <= buf@.len() && buf@.subrange(0, expect@.len() as int) == expect@),
{
    if buf.len() < expect.len() {
        return false;
    }
    let mut i: usize = 0;
    while i < expect.len()
        invariant
            i <= expect@.len() <= buf@.len(),
            buf@.subrange(0, i as int) == expect@.subrange(0, i as int),
        decreases expect@.len() - i,
    {
        if buf[i] != expect[i] {
            assert(buf@.subrange(0, expect@.len() as int)[i as int] != expect@[i as int]);
            return false;
        }
        i += 1;
        assert(buf@.subrange(0, i as int) == buf@.subrange(0, i - 1).push(buf@[i - 1]));
        assert(expect@.subrange(0, i as int) == expect@.subrange(0, i - 1).push(expect@[i - 1]));
    }
    assert(expect@.subrange(0, i as int) == expect@);
    true
}

/// Checks that the buffer starts with the bytes of `expect`, the whole of a
/// frame that is always written alike.
///
/// A buffer that holds only the first bytes of `expect` is not complete; a
/// buffer that differs from `expect` in a byte that it holds is a frame of
/// another type, and `expect_type` names the expected one in the message.
pub fn extract_fixed_data(buf: &[u8], expect: &str, expect_type: &str) -> (r: Result<
    (),
    RespError,
>)
    ensures
        match parse_fixed(buf@, encode_utf8(expect@), expect_type@) {
            Ok(_) => r is Ok,
            Err(kind) => r matches Err(e) && e@ == kind,
        },
{
    let expect_bytes = expect.as_bytes();
    if starts_with(buf, expect_bytes) {
        return Ok(());
    }
    if buf.len() < expect_bytes.len() && starts_with(expect_bytes, buf) {
        return Err(RespError::NotComplete);
    }
    Err(RespError::InvalidFrameType(unexpected_frame_message(expect_type, buf)))
}

/// Finds where the first line of a frame ends: the index of its carriage
/// return.
///
/// A buffer of fewer than three bytes, or without a line terminator after
/// its first byte, is not complete; a first byte other than `prefix` is a
/// frame of another type.
pub fn extract_simple_frame_data(buf: &[u8], prefix: u8) -> (r: Result<usize, RespError>)
    ensures
        match parse_line_end(buf@, prefix) {
            Ok(end) => r matches Ok(at) && at == end && 1 <= end && end + 2 <= buf@.len()
                <= usize::MAX,
            Err(kind) => r matches Err(e) && e@ == kind,
        },
{
    if buf.len() < 3 {
        return Err(RespError::NotComplete);
    }
    if buf[0] != prefix {
        return Err(RespError::InvalidFrameType(unexpected_prefix_message(buf)));
    }
    proof {
        lemma_nth_crlf_found(buf@, 1);
    }
    match find_crlf(buf, 1) {
        Some(end) => Ok(end),
        None => Err(RespError::NotComplete),
    }
}

/// Reads the first line of a frame as a length: where the line ends, and
/// the count that it holds.
///
/// The count is an optional `+` and decimal digits, and fits in `usize`.
pub fn parse_length(buf: &[u8], prefix: u8) -> (r: Result<(usize, usize), RespError>)
    ensures
        match parse_length_line(buf@, prefix) {
            Ok((end, len)) => r matches Ok((at, count)) && at == end && count == len && 1
                <= end && end + 2 <= buf@.len() <= usize::MAX,
            Err(kind) => r matches Err(e) && e@ == kind,
        },
{
    let end = match extract_simple_frame_data(buf, prefix) {
        Ok(end) => end,
        Err(e) => {
            return Err(e);
        },
    };
    let field = slice_subrange(buf, 1, end);
    let text = string_from_utf8_lossy(field);
    proof {
        if !vstd::utf8::valid_utf8(field@) {
            crate::numeral::lemma_replacement_is_no_numeral(text@);
        }
    }
    match parse_usize(text.as_str()) {
        Ok(len) => Ok((end, len)),
        Err(e) => Err(RespError::ParseIntError(e)),
    }
}

/// The check made on a container before any of it is read: the buffer must
/// hold, behind the first line, a line terminator for each element, or two
/// for each entry of a map.
///
/// `end` is where the first line ends and `len` the count that it holds.
/// Returns the index at which the last of these terminators starts; where
/// none is wanted, that is the terminator of the first line.
pub fn cal_total_length(buf: &[u8], end: usize, len: usize, prefix: u8) -> (r: Result<
    usize,
    RespError,
>)
    requires
        end + 2 <= buf@.len(),
    ensures
        match parse_total_length(buf@, end as int, len, prefix) {
            Ok(total) => r matches Ok(at) && at == total && end <= total && total + 2
                <= buf@.len() && (terminators_wanted(prefix, len) > 0 ==> is_crlf_at(
                buf@,
                total,
            )),
            Err(kind) => r matches Err(e) && e@ == kind,
        },
{
    let total = buf.len();
    let start = end + 1;
    let data = slice_subrange(buf, start, total);
    let wanted: usize = if prefix == ARRAY || prefix == SET {
        len
    } else if prefix == MAP {
        match len.checked_mul(2) {
            Some(twice) => twice,
            None => {
                proof {
                    lemma_crlf_count_bound(data@, 1, data@.len() as int);
                    lemma_nth_crlf_none(data@, (2 * len) as nat);
                }
                return Err(RespError::NotComplete);
            },
        }
    } else {
        0
    };
    if wanted == 0 {
        return Ok(end);
    }
    match find_crlf(data, wanted) {
        Some(at) => {
            assert(data@[at as int] == buf@[start + at]);
            assert(data@[at + 1] == buf@[start + at + 1]);
            Ok(start + at)
        },
        None => Err(RespError::NotComplete),
    }
}

} // verus!
