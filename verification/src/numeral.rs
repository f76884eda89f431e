//! Decimal numerals: how a count is written and how it is read.
use std::num::ParseIntError;
use vstd::prelude::*;
use vstd::utf8::decode_utf8;
use vstd::utf8::encode_utf8;
use vstd::utf8::is_ascii_chars;
use vstd::utf8::valid_utf8;

verus! {

/// The ASCII code of the digit zero.
pub const ZERO: u8 = 48;

/// One of the ten decimal digits of ASCII.
pub open spec fn is_digit(c: char) -> bool {
    '0' <= c && c <= '9'
}

/// The text holds decimal digits and nothing else.
pub open spec fn all_digits(text: Seq<char>) -> bool {
    forall|i: int| 0 <= i < text.len() ==> is_digit(#[trigger] text[i])
}

/// The number that a run of digits stands for.
pub open spec fn digits_value(text: Seq<char>) -> nat
    decreases text.len(),
{
    if text.len() == 0 {
        0
    } else {
        digits_value(text.drop_last()) * 10 + (text.last() as u32 - '0' as u32) as nat
    }
}

/// What an unsigned numeral stands for: an optional `+`, then digits and
/// nothing else.
pub open spec fn unsigned_numeral(text: Seq<char>) -> Option<nat> {
    let digits = if text.len() > 0 && text[0] == '+' {
        text.skip(1)
    } else {
        text
    };
    if digits.len() > 0 && all_digits(digits) {
        Some(digits_value(digits))
    } else {
        None
    }
}

/// What a signed numeral stands for: an optional `+` or `-`, then digits and
/// nothing else.
pub open spec fn signed_numeral(text: Seq<char>) -> Option<int> {
    if text.len() > 0 && text[0] == '-' {
        if text.len() > 1 && all_digits(text.skip(1)) {
            Some(-(digits_value(text.skip(1)) as int))
        } else {
            None
        }
    } else {
        match unsigned_numeral(text) {
            Some(n) => Some(n as int),
            None => None,
        }
    }
}

/// The count that a length field holds, if it is a numeral that fits.
pub open spec fn count_field(bytes: Seq<u8>) -> Option<usize> {
    if valid_utf8(bytes) {
        match unsigned_numeral(decode_utf8(bytes)) {
            Some(n) => if n <= usize::MAX {
                Some(n as usize)
            } else {
                None
            },
            None => None,
        }
    } else {
        None
    }
}

/// The integer that a payload holds, if it is a numeral that fits.
pub open spec fn integer_field(bytes: Seq<u8>) -> Option<i64> {
    if valid_utf8(bytes) {
        match signed_numeral(decode_utf8(bytes)) {
            Some(n) => if i64::MIN <= n <= i64::MAX {
                Some(n as i64)
            } else {
                None
            },
            None => None,
        }
    } else {
        None
    }
}

/// The decimal digits of `n` in ASCII, without sign or leading zeros.
pub open spec fn decimal(n: nat) -> Seq<u8>
    decreases n,
{
    if n < 10 {
        seq![(48 + n) as u8]
    } else {
        decimal(n / 10).push((48 + n % 10) as u8)
    }
}

/// How an integer is written: its sign, then the digits of its magnitude.
pub open spec fn signed_decimal(n: int) -> Seq<u8> {
    if n >= 0 {
        seq![43u8] + decimal(n as nat)
    } else {
        seq![45u8] + decimal((-n) as nat)
    }
}

/// The error that `str::parse::<usize>` gives for a text that it does not
/// read.
pub uninterp spec fn usize_parse_error(text: Seq<char>) -> ParseIntError;

/// The error that `str::parse::<i64>` gives for a text that it does not
/// read.
pub uninterp spec fn i64_parse_error(text: Seq<char>) -> ParseIntError;

/// `str::parse::<usize>`: the value of a numeral that fits in `usize`; for
/// any other text an error, which the text alone decides.
#[verifier::external_body]
pub(crate) fn parse_usize(text: &str) -> (r: Result<usize, ParseIntError>)
    ensures
        match r {
            Ok(n) => unsigned_numeral(text@) == Some(n as nat),
            Err(e) => e == usize_parse_error(text@) && match unsigned_numeral(text@) {
                Some(n) => n > usize::MAX,
                None => true,
            },
        },
{
    text.parse::<usize>()
}

/// `str::parse::<i64>`: the value of a signed numeral that fits in `i64`;
/// for any other text an error, which the text alone decides.
#[verifier::external_body]
pub(crate) fn parse_i64(text: &str) -> (r: Result<i64, ParseIntError>)
    ensures
        match r {
            Ok(n) => signed_numeral(text@) == Some(n as int),
            Err(e) => e == i64_parse_error(text@) && match signed_numeral(text@) {
                Some(n) => n < i64::MIN || n > i64::MAX,
                None => true,
            },
        },
{
    text.parse::<i64>()
}

/// Appends the decimal digits of `n`.
pub fn push_decimal(out: &mut Vec<u8>, n: u64)
    ensures
        final(out)@ == old(out)@ + decimal(n as nat),
    decreases n,
{
    if n >= 10 {
        push_decimal(out, n / 10);
    }
    out.push(ZERO + (n % 10) as u8);
}

/// Appends an integer as it is written: `+` or `-`, then its magnitude.
pub fn push_signed_decimal(out: &mut Vec<u8>, n: i64)
    ensures
        final(out)@ == old(out)@ + signed_decimal(n as int),
{
    if n >= 0 {
        out.push(43);
        push_decimal(out, n as u64);
    } else {
        out.push(45);
        let magnitude: u64 = if n == i64::MIN {
            0x8000_0000_0000_0000
        } else {
            (-n) as u64
        };
        push_decimal(out, magnitude);
    }
}

/// A text that holds the replacement character is no numeral.
pub proof fn lemma_replacement_is_no_numeral(text: Seq<char>)
    requires
        text.contains('\u{FFFD}'),
    ensures
        unsigned_numeral(text) is None,
        signed_numeral(text) is None,
{
    let i = choose|i: int| 0 <= i < text.len() && text[i] == '\u{FFFD}';
    assert(!is_digit(text[i]));
    if text[0] == '+' || text[0] == '-' {
        assert(text.skip(1)[i - 1] == text[i]);
    }
}

/// The characters of a decimal are its bytes.
pub open spec fn decimal_text(n: nat) -> Seq<char> {
    Seq::new(decimal(n).len(), |i: int| decimal(n)[i] as char)
}

/// A count is written with at least one byte, all of them digits.
pub proof fn lemma_decimal_digits(n: nat)
    ensures
        decimal(n).len() >= 1,
        forall|i: int| 0 <= i < decimal(n).len() ==> 48 <= #[trigger] decimal(n)[i] <= 57,
    decreases n,
{
    if n >= 10 {
        lemma_decimal_digits(n / 10);
    }
}

/// A written count is UTF-8, and reads as the digits that were written.
pub proof fn lemma_decimal_is_text(n: nat)
    ensures
        valid_utf8(decimal(n)),
        decode_utf8(decimal(n)) == decimal_text(n),
        all_digits(decimal_text(n)),
        decimal_text(n).len() == decimal(n).len(),
{
    lemma_decimal_digits(n);
    let text = decimal_text(n);
    assert(is_ascii_chars(text)) by {
        assert forall|i: int| 0 <= i < text.len() implies (text[i] as nat) < 128 by {
            assert(48 <= decimal(n)[i] <= 57);
        }
    }
    vstd::utf8::is_ascii_chars_encode_utf8(text);
    assert(encode_utf8(text) =~= decimal(n)) by {
        assert forall|i: int| 0 <= i < text.len() implies text[i] as u8 == decimal(n)[i] by {
            assert(48 <= decimal(n)[i] <= 57);
        }
    }
    vstd::utf8::encode_utf8_valid_utf8(text);
    vstd::utf8::encode_utf8_decode_utf8(text);
    assert forall|i: int| 0 <= i < text.len() implies is_digit(#[trigger] text[i]) by {
        assert(48 <= decimal(n)[i] <= 57);
    }
}

/// The digits that were written for `n` stand for `n`.
pub proof fn lemma_decimal_value(n: nat)
    ensures
        digits_value(decimal_text(n)) == n,
    decreases n,
{
    let text = decimal_text(n);
    lemma_decimal_digits(n);
    if n < 10 {
        assert(text.drop_last().len() == 0);
        assert(text.last() == (48 + n) as u8 as char);
        assert(digits_value(text.drop_last()) == 0);
    } else {
        lemma_decimal_value(n / 10);
        lemma_decimal_digits(n / 10);
        assert(text.drop_last() =~= decimal_text(n / 10));
        assert(text.last() == (48 + n % 10) as u8 as char);
    }
}

/// Reading a written count gives the count back.
pub proof fn lemma_count_field_of_decimal(n: nat)
    requires
        n <= usize::MAX,
    ensures
        count_field(decimal(n)) == Some(n as usize),
{
    lemma_decimal_is_text(n);
    lemma_decimal_value(n);
    lemma_decimal_digits(n);
    let text = decimal_text(n);
    assert(text[0] != '+') by {
        assert(48 <= decimal(n)[0] <= 57);
    }
}

} // verus!
