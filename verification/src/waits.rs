//! Buffers that end too early: what is read from a part of what was
//! written.
use crate::error::Failure;
use crate::grammar::null_array_bytes;
use crate::grammar::null_bulk_string_bytes;
use crate::grammar::null_bytes;
use crate::grammar::parse_fixed;
use crate::grammar::parse_frame;
use crate::grammar::parse_header;
use crate::grammar::parse_length_line;
use crate::grammar::parse_line_end;
use crate::grammar::terminators_wanted;
use crate::grammar::false_bytes;
use crate::grammar::true_bytes;
use crate::grammar::wire_frame;
use crate::grammar::wire_header;
use crate::grammar::BULK_STRING;
use crate::grammar::DOUBLE;
use crate::grammar::SIMPLE_ERROR;
use crate::grammar::SIMPLE_STRING;
use crate::lines::lemma_crlf_count_zero;
use crate::lines::lemma_decimal_no_crlf;
use crate::lines::lemma_length_line_reads;
use crate::lines::lemma_no_first_crlf;
use crate::lines::no_crlf;
use crate::model::Frame;
use crate::numeral::decimal;
use crate::numeral::lemma_decimal_digits;
use crate::scan::crlf;
use crate::scan::crlf_count;
use crate::scan::is_crlf_at;
use crate::scan::lemma_nth_crlf_none;
use crate::numeral::count_field;
use vstd::prelude::*;
use vstd::utf8::encode_utf8;

verus! {

/// A first line that is not there yet: a buffer that ends before the
/// terminator of the line it starts is not complete.
pub proof fn lemma_line_waits(prefix: u8, payload: Seq<u8>, rest: Seq<u8>, cut: int)
    requires
        no_crlf(payload),
        0 <= cut <= payload.len() + 2,
    ensures
        cut > 0 ==> parse_line_end(
            (seq![prefix] + payload + crlf() + rest).subrange(0, cut),
            prefix,
        ) == Err::<int, Failure>(Failure::NotComplete),
        cut > 0 ==> (seq![prefix] + payload + crlf() + rest).subrange(0, cut)[0] == prefix,
{
    let head = seq![prefix] + payload;
    assert(head.skip(1) =~= payload);
    assert(seq![prefix] + payload + crlf() + rest =~= head + crlf() + rest);
    lemma_no_first_crlf(head, rest, cut);
}

/// A buffer that ends inside a fixed frame is not complete.
pub proof fn lemma_fixed_waits(bytes: Seq<u8>, cut: int)
    requires
        0 <= cut < bytes.len(),
    ensures
        forall|expect_type: Seq<char>|
            #[trigger] parse_fixed(bytes.subrange(0, cut), bytes, expect_type) == Err::<
                (),
                Failure,
            >(Failure::NotComplete),
{
    assert(bytes.subrange(0, cut) =~= bytes.subrange(0, bytes.subrange(0, cut).len() as int));
}

/// A container whose first line asks for more line terminators than the
/// buffer holds behind that line is not complete.
pub proof fn lemma_header_waits(s: Seq<u8>, prefix: u8)
    requires
        parse_length_line(s, prefix) is Ok,
        crlf_count(
            s.skip(parse_length_line(s, prefix)->Ok_0.0 + 1),
            1,
            s.len() - (parse_length_line(s, prefix)->Ok_0.0 + 1),
        ) < terminators_wanted(prefix, parse_length_line(s, prefix)->Ok_0.1),
    ensures
        parse_header(s, prefix) == Err::<(int, usize), Failure>(Failure::NotComplete),
{
    let end = parse_length_line(s, prefix)->Ok_0.0;
    let len = parse_length_line(s, prefix)->Ok_0.1;
    crate::scan::lemma_line_end_bounds(s, prefix);
    lemma_nth_crlf_none(s.skip(end + 1), terminators_wanted(prefix, len));
}

/// `-1` is no count.
pub proof fn lemma_minus_one_is_no_count()
    ensures
        count_field(seq![45u8, 49u8]) is None,
{
    let text = seq!['-', '1'];
    assert(vstd::utf8::is_ascii_chars(text));
    vstd::utf8::is_ascii_chars_encode_utf8(text);
    assert(encode_utf8(text) =~= seq![45u8, 49u8]);
    vstd::utf8::encode_utf8_valid_utf8(text);
    vstd::utf8::encode_utf8_decode_utf8(text);
    assert(!crate::numeral::is_digit(text[0]));
}

/// A buffer whose first line reads as a length holds neither null form.
pub proof fn lemma_length_line_is_no_null_form(s: Seq<u8>, prefix: u8)
    requires
        parse_length_line(s, prefix) is Ok,
    ensures
        forall|expect_type: Seq<char>|
            !(#[trigger] parse_fixed(s, null_array_bytes(), expect_type) is Ok),
        forall|expect_type: Seq<char>|
            !(#[trigger] parse_fixed(s, null_bulk_string_bytes(), expect_type) is Ok),
{
    if parse_fixed(s, null_array_bytes(), Seq::empty()) is Ok || parse_fixed(
        s,
        null_bulk_string_bytes(),
        Seq::empty(),
    ) is Ok {
        assert(s.subrange(0, 5)[1] == s[1]);
        assert(s.subrange(0, 5)[2] == s[2]);
        assert(s.subrange(0, 5)[3] == s[3]);
        assert(s.subrange(0, 5)[4] == s[4]);
        assert(s[1] == 45u8 && s[2] == 49u8 && s[3] == 13u8 && s[4] == 10u8);
        assert forall|j: int| 1 <= j < 3 implies !is_crlf_at(s, j) by {}
        lemma_crlf_count_zero(s, 1, 3);
        assert(crate::scan::is_nth_crlf(s, 1, 3));
        crate::scan::lemma_nth_crlf_is(s, 1, 3);
        assert(s.subrange(1, 3) =~= seq![45u8, 49u8]);
        lemma_minus_one_is_no_count();
    }
}

/// A buffer that ends inside a line of text is not complete.
pub proof fn lemma_text_frame_waits(f: Frame, cut: int)
    requires
        f is SimpleString || f is Error || f is Double,
        crate::readback::reads_back(f),
        0 < cut < wire_frame(f).len(),
    ensures
        parse_frame(wire_frame(f).subrange(0, cut)) == Err::<(Frame, int), Failure>(
            Failure::NotComplete,
        ),
{
    let none = Seq::<u8>::empty();
    match f {
        Frame::SimpleString(text) => {
            assert(wire_frame(f) =~= seq![SIMPLE_STRING] + encode_utf8(text) + crlf() + none);
            lemma_line_waits(SIMPLE_STRING, encode_utf8(text), none, cut);
        },
        Frame::Error(text) => {
            assert(wire_frame(f) =~= seq![SIMPLE_ERROR] + encode_utf8(text) + crlf() + none);
            lemma_line_waits(SIMPLE_ERROR, encode_utf8(text), none, cut);
        },
        Frame::Double(text) => {
            assert(wire_frame(f) =~= seq![DOUBLE] + encode_utf8(text) + crlf() + none);
            lemma_line_waits(DOUBLE, encode_utf8(text), none, cut);
        },
        _ => {},
    }
}

/// A buffer that ends inside a frame that is always written alike is not
/// complete.
pub proof fn lemma_fixed_frame_waits(f: Frame, cut: int)
    requires
        f is NullBulkString || f is NullArray || f is Null || f is Boolean,
        0 < cut < wire_frame(f).len(),
    ensures
        parse_frame(wire_frame(f).subrange(0, cut)) == Err::<(Frame, int), Failure>(
            Failure::NotComplete,
        ),
{
    let p = wire_frame(f).subrange(0, cut);
    match f {
        Frame::NullBulkString => {
            lemma_fixed_waits(null_bulk_string_bytes(), cut);
        },
        Frame::NullArray => {
            lemma_fixed_waits(null_array_bytes(), cut);
        },
        Frame::Null => {
            lemma_fixed_waits(null_bytes(), cut);
        },
        Frame::Boolean(b) => {
            if b {
                lemma_fixed_waits(true_bytes(), cut);
            } else {
                lemma_fixed_waits(false_bytes(), cut);
                if cut >= 2 {
                    assert(true_bytes().subrange(0, cut)[1] == 116u8);
                    assert(p[1] == 102u8);
                } else {
                    assert(p =~= true_bytes().subrange(0, cut));
                }
            }
        },
        _ => {},
    }
}

/// A buffer that ends inside the first line of a sized frame, or inside
/// what must follow that line, is not complete.
pub proof fn lemma_sized_waits(prefix: u8, n: nat, body: Seq<u8>, cut: int)
    requires
        n <= usize::MAX,
        0 < cut <= wire_header(prefix, n).len() + body.len(),
    ensures
        ({
            let p = (wire_header(prefix, n) + body).subrange(0, cut);
            &&& p[0] == prefix
            &&& cut >= 2 ==> p[1] != 45u8
            &&& cut < wire_header(prefix, n).len() ==> parse_length_line(p, prefix) == Err::<
                (int, usize),
                Failure,
            >(Failure::NotComplete)
            &&& cut >= wire_header(prefix, n).len() ==> parse_length_line(p, prefix) == Ok::<
                (int, usize),
                Failure,
            >((wire_header(prefix, n).len() - 2, n as usize)) && p.skip(
                wire_header(prefix, n).len() as int,
            ) == body.subrange(0, cut - wire_header(prefix, n).len())
        }),
{
    let header = wire_header(prefix, n);
    let s = header + body;
    let p = s.subrange(0, cut);
    lemma_decimal_digits(n);
    lemma_decimal_no_crlf(n);
    assert(s[1] == decimal(n)[0]);
    if cut < header.len() {
        assert(s =~= seq![prefix] + decimal(n) + crlf() + body);
        lemma_line_waits(prefix, decimal(n), body, cut);
    } else {
        let rest = body.subrange(0, cut - header.len());
        assert(p =~= header + rest);
        lemma_length_line_reads(prefix, n, rest);
        assert(p.skip(header.len() as int) =~= rest);
    }
}

/// A buffer that ends inside a bulk string is not complete.
pub proof fn lemma_bulk_frame_waits(payload: Seq<u8>, cut: int)
    requires
        payload.len() <= usize::MAX,
        0 < cut < wire_frame(Frame::BulkString(payload)).len(),
    ensures
        parse_frame(wire_frame(Frame::BulkString(payload)).subrange(0, cut)) == Err::<
            (Frame, int),
            Failure,
        >(Failure::NotComplete),
{
    let n = payload.len();
    let body = payload + crlf();
    let w = wire_frame(Frame::BulkString(payload));
    let p = w.subrange(0, cut);
    assert(w =~= wire_header(BULK_STRING, n) + body);
    lemma_sized_waits(BULK_STRING, n, body, cut);
    if cut >= 2 {
        crate::readback::lemma_not_null_form(p);
    } else {
        assert(p =~= null_bulk_string_bytes().subrange(0, 1));
    }
}

} // verus!
