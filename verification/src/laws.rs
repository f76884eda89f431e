//! What writing and reading have to do with each other.
//!
//! The laws speak of `wire_frame`, the encoder's contract, and of
//! `parse_frame`, the decoder's: what holds of the two holds of
//! `RespEncode::encode` and of `RespDecode::decode` on a buffer.
use crate::error::Failure;
use crate::grammar::parse_frame;
use crate::grammar::parse_header;
use crate::grammar::parse_items;
use crate::grammar::parse_length_line;
use crate::grammar::parse_map;
use crate::grammar::parse_pairs;
use crate::grammar::terminators_wanted;
use crate::grammar::wire_frame;
use crate::grammar::ARRAY;
use crate::grammar::MAP;
use crate::grammar::SET;
use crate::model::keys_ascend;
use crate::model::lemma_entries_of_ascend;
use crate::model::Frame;
use crate::parts::lemma_cut_frame;
use crate::parts::lemma_sequence_fail_header;
use crate::parts::lemma_sequence_fail_items;
use crate::parts::lemma_map_fail_pairs;
use crate::grammar::SIMPLE_STRING;
use crate::prefix::lemma_frame_extends;
use crate::prefix::lemma_items_extends;
use crate::prefix::lemma_pairs_extends;
use crate::prefix::lemma_text_line_extends;
use crate::prefix::starts;
use crate::readback::lemma_frame_reads_back;
use crate::readback::reads_back;
use crate::scan::crlf_count;
use crate::waits::lemma_header_waits;
use crate::waits::lemma_length_line_is_no_null_form;
use vstd::prelude::*;

verus! {

/// Round trip: a frame that reads back, written and then read from a
/// buffer that holds nothing else, is read as the frame it was, and all of
/// its bytes are taken.
pub proof fn law_round_trip(f: Frame)
    requires
        reads_back(f),
    ensures
        parse_frame(wire_frame(f)) == Ok::<(Frame, int), Failure>(
            (f, wire_frame(f).len() as int),
        ),
{
    lemma_frame_reads_back(f, Seq::empty());
    assert(wire_frame(f) + Seq::<u8>::empty() =~= wire_frame(f));
}

/// Round trip in a stream: a frame that reads back is read as the frame it
/// was from a buffer that holds more behind it, and only its own bytes are
/// taken.
pub proof fn law_round_trip_in_stream(f: Frame, rest: Seq<u8>)
    requires
        reads_back(f),
    ensures
        parse_frame(wire_frame(f) + rest) == Ok::<(Frame, int), Failure>(
            (f, wire_frame(f).len() as int),
        ),
{
    lemma_frame_reads_back(f, rest);
}

/// Incremental completion: of a frame that reads back, every part that is
/// not empty and not the whole is not complete, and the whole is read as
/// the frame.
pub proof fn law_incremental_completion(f: Frame, cut: int)
    requires
        reads_back(f),
        0 < cut < wire_frame(f).len(),
    ensures
        parse_frame(wire_frame(f).subrange(0, cut)) == Err::<(Frame, int), Failure>(
            Failure::NotComplete,
        ),
        parse_frame(wire_frame(f)) == Ok::<(Frame, int), Failure>(
            (f, wire_frame(f).len() as int),
        ),
{
    law_round_trip(f);
    lemma_cut_frame(f, cut);
}

/// No frame before its time: where a buffer starts with a frame, no
/// shorter buffer that holds only a part of the bytes of that frame reads as
/// a frame.
pub proof fn law_part_yields_no_frame(s: Seq<u8>, cut: int)
    requires
        parse_frame(s) is Ok,
        0 <= cut < parse_frame(s)->Ok_0.1,
    ensures
        parse_frame(s.subrange(0, cut)) is Err,
{
    assert(s.subrange(0, s.len() as int) =~= s);
    lemma_frame_extends(s, s);
    let part = s.subrange(0, cut);
    assert(part.subrange(0, cut) =~= part);
    assert(starts(s, part)) by {
        assert(s.subrange(0, part.len() as int) =~= part);
    }
    if parse_frame(part) is Ok {
        lemma_frame_extends(s, part);
    }
}

/// More bytes change no frame: a frame that was read from a buffer is read
/// from every buffer that starts with the bytes of that one, and takes the
/// same bytes.
pub proof fn law_more_bytes_change_no_frame(s: Seq<u8>, part: Seq<u8>)
    requires
        starts(s, part),
        parse_frame(part) is Ok,
    ensures
        parse_frame(s) == parse_frame(part),
{
    lemma_frame_extends(s, part);
}

/// A map that was read holds one entry for a key, and its entries in the
/// order of their keys.
pub proof fn law_read_map_is_ordered(s: Seq<u8>)
    requires
        parse_map(s) is Ok,
    ensures
        keys_ascend(parse_map(s)->Ok_0.0),
{
    match parse_header(s, MAP) {
        Ok((start, len)) => {
            match parse_pairs(s.skip(start), len as nat) {
                Ok((pairs, _)) => {
                    lemma_entries_of_ascend(pairs);
                },
                Err(_) => {},
            }
        },
        Err(_) => {},
    }
}

/// Every buffer starts with its own bytes.
pub proof fn lemma_whole_starts(s: Seq<u8>)
    ensures
        starts(s, s),
{
    assert(s.subrange(0, s.len() as int) =~= s);
}

/// Where a buffer holds `k` frames and the next is not complete, more
/// than `k` frames are not read from it: the buffer is not complete.
pub proof fn lemma_items_owed(d: Seq<u8>, k: nat, n: nat)
    requires
        k < n,
        parse_items(d, k) is Ok,
        parse_items(d.skip(parse_items(d, k)->Ok_0.1), 1) == Err::<(Seq<Frame>, int), Failure>(
            Failure::NotComplete,
        ),
    ensures
        parse_items(d, n) == Err::<(Seq<Frame>, int), Failure>(Failure::NotComplete),
    decreases k,
{
    if k == 0 {
        // Had one frame been read, reading one would not have failed.
        assert(d.skip(0) =~= d);
        match parse_frame(d) {
            Ok((_, used)) => {
                assert(parse_items(d.skip(used), 0) is Ok);
            },
            Err(_) => {},
        }
    } else {
        match parse_frame(d) {
            Ok((first, used)) => {
                let rest = d.skip(used);
                match parse_items(rest, (k - 1) as nat) {
                    Ok((_, more)) => {
                        lemma_whole_starts(d);
                        lemma_whole_starts(rest);
                        lemma_frame_extends(d, d);
                        lemma_items_extends(rest, rest, (k - 1) as nat);
                        assert(rest.skip(more) =~= d.skip(used + more));
                        lemma_items_owed(rest, (k - 1) as nat, (n - 1) as nat);
                    },
                    Err(_) => {},
                }
            },
            Err(_) => {},
        }
    }
}

/// Where a buffer holds `k` pairs and the next is not complete, more than
/// `k` pairs are not read from it: the buffer is not complete.
pub proof fn lemma_pairs_owed(d: Seq<u8>, k: nat, n: nat)
    requires
        k < n,
        parse_pairs(d, k) is Ok,
        parse_pairs(d.skip(parse_pairs(d, k)->Ok_0.1), 1) == Err::<
            (Seq<(Seq<char>, Frame)>, int),
            Failure,
        >(Failure::NotComplete),
    ensures
        parse_pairs(d, n) == Err::<(Seq<(Seq<char>, Frame)>, int), Failure>(
            Failure::NotComplete,
        ),
    decreases k,
{
    if k == 0 {
        // Had one pair been read, reading one would not have failed.
        assert(d.skip(0) =~= d);
        match crate::grammar::parse_simple_string(d) {
            Ok((_, key_used)) => {
                match parse_frame(d.skip(key_used)) {
                    Ok((_, value_used)) => {
                        assert(parse_pairs(d.skip(key_used + value_used), 0) is Ok);
                    },
                    Err(_) => {},
                }
            },
            Err(_) => {},
        }
    } else {
        match crate::grammar::parse_simple_string(d) {
            Ok((key, key_used)) => {
                match parse_frame(d.skip(key_used)) {
                    Ok((value, value_used)) => {
                        let rest = d.skip(key_used + value_used);
                        match parse_pairs(rest, (k - 1) as nat) {
                            Ok((_, more)) => {
                                lemma_whole_starts(d);
                                lemma_whole_starts(d.skip(key_used));
                                lemma_whole_starts(rest);
                                lemma_text_line_extends(d, d, SIMPLE_STRING);
                                lemma_frame_extends(d.skip(key_used), d.skip(key_used));
                                lemma_pairs_extends(rest, rest, (k - 1) as nat);
                                assert(rest.skip(more) =~= d.skip(key_used + value_used + more));
                                lemma_pairs_owed(rest, (k - 1) as nat, (n - 1) as nat);
                            },
                            Err(_) => {},
                        }
                    },
                    Err(_) => {},
                }
            },
            Err(_) => {},
        }
    }
}

/// Container atomicity: a buffer that holds the first line of an array, a
/// set or a map, behind it fewer complete elements (or entries of a map)
/// than the line declares, and behind those nothing or an element that is
/// not complete, is not complete.
///
/// That the next element is not complete is said by reading one element
/// from what stands behind the `k` that are there: `parse_items` (for a
/// map `parse_pairs`) with a count of one gives `NotComplete` there.
pub proof fn law_container_atomicity(s: Seq<u8>, prefix: u8, k: nat)
    requires
        prefix == ARRAY || prefix == SET || prefix == MAP,
        parse_length_line(s, prefix) is Ok,
        k < parse_length_line(s, prefix)->Ok_0.1,
        ({
            let behind = s.skip(parse_length_line(s, prefix)->Ok_0.0 + 2);
            if prefix == MAP {
                &&& parse_pairs(behind, k) is Ok
                &&& parse_pairs(behind.skip(parse_pairs(behind, k)->Ok_0.1), 1) == Err::<
                    (Seq<(Seq<char>, Frame)>, int),
                    Failure,
                >(Failure::NotComplete)
            } else {
                &&& parse_items(behind, k) is Ok
                &&& parse_items(behind.skip(parse_items(behind, k)->Ok_0.1), 1) == Err::<
                    (Seq<Frame>, int),
                    Failure,
                >(Failure::NotComplete)
            }
        }),
    ensures
        parse_frame(s) == Err::<(Frame, int), Failure>(Failure::NotComplete),
{
    let end = parse_length_line(s, prefix)->Ok_0.0;
    let n = parse_length_line(s, prefix)->Ok_0.1;
    let behind = s.skip(end + 2);
    crate::scan::lemma_line_end_bounds(s, prefix);
    lemma_length_line_is_no_null_form(s, prefix);
    match parse_header(s, prefix) {
        Err(e) => {
            lemma_sequence_fail_header(s, prefix, e);
        },
        Ok(_) => {
            if prefix == MAP {
                lemma_pairs_owed(behind, k, n as nat);
                lemma_map_fail_pairs(s, end + 2, n, Failure::NotComplete);
            } else {
                lemma_items_owed(behind, k, n as nat);
                lemma_sequence_fail_items(s, prefix, end + 2, n, Failure::NotComplete);
            }
        },
    }
}

/// A container waits for its line terminators: a buffer that holds the
/// first line of an array, a set or a map, and behind that line fewer line
/// terminators than the line declares elements (two for each entry of a
/// map), is not complete.
pub proof fn law_container_waits(s: Seq<u8>, prefix: u8)
    requires
        prefix == ARRAY || prefix == SET || prefix == MAP,
        parse_length_line(s, prefix) is Ok,
        crlf_count(
            s.skip(parse_length_line(s, prefix)->Ok_0.0 + 1),
            1,
            s.len() - (parse_length_line(s, prefix)->Ok_0.0 + 1),
        ) < terminators_wanted(prefix, parse_length_line(s, prefix)->Ok_0.1),
    ensures
        parse_frame(s) == Err::<(Frame, int), Failure>(Failure::NotComplete),
{
    crate::scan::lemma_line_end_bounds(s, prefix);
    lemma_header_waits(s, prefix);
    lemma_length_line_is_no_null_form(s, prefix);
}

} // verus!
