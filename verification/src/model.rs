//! The mathematical model of a frame.
use vstd::prelude::*;
use vstd::utf8::encode_utf8;

verus! {

/// One protocol value, as contracts speak of it.
///
/// Text is a sequence of characters, a bulk payload a sequence of bytes. A
/// double is held as the numeral that stands on the wire. The entries of a
/// map are listed in the order in which they are written.
pub enum Frame {
    SimpleString(Seq<char>),
    Error(Seq<char>),
    BulkError(Seq<char>),
    Integer(i64),
    BulkString(Seq<u8>),
    NullBulkString,
    Array(Seq<Frame>),
    NullArray,
    Null,
    Boolean(bool),
    Double(Seq<char>),
    RespMap(Seq<(Seq<char>, Frame)>),
    RespSet(Seq<Frame>),
}

/// The order of byte strings: byte by byte, a proper prefix before what it
/// is a prefix of.
pub open spec fn bytes_lt(a: Seq<u8>, b: Seq<u8>) -> bool
    decreases a.len(),
{
    if b.len() == 0 {
        false
    } else if a.len() == 0 {
        true
    } else if a[0] != b[0] {
        a[0] < b[0]
    } else {
        bytes_lt(a.skip(1), b.skip(1))
    }
}

/// The order in which a map holds its keys: that of their UTF-8 bytes.
pub open spec fn key_lt(a: Seq<char>, b: Seq<char>) -> bool {
    bytes_lt(encode_utf8(a), encode_utf8(b))
}

/// The keys of `entries` go strictly up.
pub open spec fn keys_ascend(entries: Seq<(Seq<char>, Frame)>) -> bool {
    forall|i: int, j: int|
        0 <= i < j < entries.len() ==> key_lt(#[trigger] entries[i].0, #[trigger] entries[j].0)
}

/// How many entries at the front of `entries` have a key below `key`.
pub open spec fn lower_bound(entries: Seq<(Seq<char>, Frame)>, key: Seq<char>) -> int
    decreases entries.len(),
{
    if entries.len() == 0 || !key_lt(entries[0].0, key) {
        0
    } else {
        1 + lower_bound(entries.skip(1), key)
    }
}

/// The entries of a map after `key` was given `value`: the entry of that key
/// replaced where there was one, else a new entry at the key's place.
pub open spec fn insert_entry(
    entries: Seq<(Seq<char>, Frame)>,
    key: Seq<char>,
    value: Frame,
) -> Seq<(Seq<char>, Frame)> {
    let at = lower_bound(entries, key);
    if at < entries.len() && entries[at].0 == key {
        entries.update(at, (key, value))
    } else {
        entries.insert(at, (key, value))
    }
}

/// The entries of the map that holds `pairs`, each put in as it comes: a
/// later pair replaces an earlier one of the same key.
pub open spec fn entries_of(pairs: Seq<(Seq<char>, Frame)>) -> Seq<(Seq<char>, Frame)>
    decreases pairs.len(),
{
    if pairs.len() == 0 {
        Seq::empty()
    } else {
        insert_entry(entries_of(pairs.drop_last()), pairs.last().0, pairs.last().1)
    }
}

/// How two keys stand to each other.
#[derive(Clone, Copy, Debug, PartialEq, Eq, Structural)]
pub enum KeyOrder {
    Before,
    Same,
    After,
}

/// Bytes that two strings share at the front do not decide their order.
pub proof fn lemma_bytes_lt_skip(a: Seq<u8>, b: Seq<u8>, i: int)
    requires
        0 <= i <= a.len(),
        i <= b.len(),
        a.subrange(0, i) == b.subrange(0, i),
    ensures
        bytes_lt(a, b) == bytes_lt(a.skip(i), b.skip(i)),
    decreases i,
{
    if i > 0 {
        assert(a[0] == a.subrange(0, i)[0]);
        assert(b[0] == b.subrange(0, i)[0]);
        let x = a.skip(1).subrange(0, i - 1);
        let y = b.skip(1).subrange(0, i - 1);
        assert(x =~= y) by {
            assert forall|j: int| 0 <= j < i - 1 implies #[trigger] x[j] == y[j] by {
                assert(a.subrange(0, i)[j + 1] == a[j + 1]);
                assert(b.subrange(0, i)[j + 1] == b[j + 1]);
                assert(x[j] == a[j + 1]);
                assert(y[j] == b[j + 1]);
            }
        }
        lemma_bytes_lt_skip(a.skip(1), b.skip(1), i - 1);
        assert(a.skip(1).skip(i - 1) == a.skip(i));
        assert(b.skip(1).skip(i - 1) == b.skip(i));
    } else {
        assert(a.skip(0) == a);
        assert(b.skip(0) == b);
    }
}

/// Of two byte strings only one is before the other, and no byte string is
/// before itself.
pub proof fn lemma_bytes_lt_asymmetric(a: Seq<u8>, b: Seq<u8>)
    requires
        bytes_lt(a, b),
    ensures
        !bytes_lt(b, a),
        a != b,
    decreases a.len(),
{
    if a.len() > 0 && b.len() > 0 && a[0] == b[0] {
        lemma_bytes_lt_asymmetric(a.skip(1), b.skip(1));
        if a == b {
            assert(a.skip(1) == b.skip(1));
        }
    }
}

/// What is before a byte string is before all that this one is before.
pub proof fn lemma_bytes_lt_transitive(a: Seq<u8>, b: Seq<u8>, c: Seq<u8>)
    requires
        bytes_lt(a, b),
        bytes_lt(b, c),
    ensures
        bytes_lt(a, c),
    decreases a.len(),
{
    if a.len() > 0 && b.len() > 0 && c.len() > 0 && a[0] == b[0] && b[0] == c[0] {
        lemma_bytes_lt_transitive(a.skip(1), b.skip(1), c.skip(1));
    }
}

/// Of two byte strings that differ, one is before the other.
pub proof fn lemma_bytes_lt_total(a: Seq<u8>, b: Seq<u8>)
    ensures
        bytes_lt(a, b) || a == b || bytes_lt(b, a),
    decreases a.len(),
{
    if a.len() > 0 && b.len() > 0 && a[0] == b[0] {
        lemma_bytes_lt_total(a.skip(1), b.skip(1));
        if a.skip(1) == b.skip(1) {
            assert(a =~= seq![a[0]] + a.skip(1));
            assert(b =~= seq![b[0]] + b.skip(1));
        }
    } else if a.len() == 0 && b.len() == 0 {
        assert(a =~= b);
    }
}

/// Keys with the same bytes are the same key.
pub proof fn lemma_key_bytes_decide(a: Seq<char>, b: Seq<char>)
    requires
        encode_utf8(a) == encode_utf8(b),
    ensures
        a == b,
{
    vstd::utf8::encode_utf8_decode_utf8(a);
    vstd::utf8::encode_utf8_decode_utf8(b);
}

/// Of two keys only one is before the other.
pub proof fn lemma_key_lt_asymmetric(a: Seq<char>, b: Seq<char>)
    requires
        key_lt(a, b),
    ensures
        !key_lt(b, a),
        a != b,
{
    lemma_bytes_lt_asymmetric(encode_utf8(a), encode_utf8(b));
}

/// No key is before itself.
pub proof fn lemma_key_lt_asymmetric_self(a: Seq<char>)
    ensures
        !key_lt(a, a),
{
    if key_lt(a, a) {
        lemma_key_lt_asymmetric(a, a);
    }
}

/// What is before a key is before all that this one is before.
pub proof fn lemma_key_lt_transitive(a: Seq<char>, b: Seq<char>, c: Seq<char>)
    requires
        key_lt(a, b),
        key_lt(b, c),
    ensures
        key_lt(a, c),
{
    lemma_bytes_lt_transitive(encode_utf8(a), encode_utf8(b), encode_utf8(c));
}

/// Of two keys that differ, one is before the other.
pub proof fn lemma_key_lt_total(a: Seq<char>, b: Seq<char>)
    ensures
        key_lt(a, b) || a == b || key_lt(b, a),
{
    lemma_bytes_lt_total(encode_utf8(a), encode_utf8(b));
    if encode_utf8(a) == encode_utf8(b) {
        lemma_key_bytes_decide(a, b);
    }
}

/// What `lower_bound` counts: the entries before it have a key below `key`,
/// the entry at it has not.
pub proof fn lemma_lower_bound(entries: Seq<(Seq<char>, Frame)>, key: Seq<char>)
    ensures
        0 <= lower_bound(entries, key) <= entries.len(),
        forall|j: int| 0 <= j < lower_bound(entries, key) ==> key_lt(#[trigger] entries[j].0, key),
        lower_bound(entries, key) < entries.len() ==> !key_lt(
            entries[lower_bound(entries, key)].0,
            key,
        ),
    decreases entries.len(),
{
    if entries.len() > 0 && key_lt(entries[0].0, key) {
        let rest = entries.skip(1);
        lemma_lower_bound(rest, key);
        assert forall|j: int| 0 <= j < lower_bound(entries, key) implies key_lt(
            #[trigger] entries[j].0,
            key,
        ) by {
            if j > 0 {
                assert(entries[j] == rest[j - 1]);
            }
        }
        if lower_bound(entries, key) < entries.len() {
            assert(entries[lower_bound(entries, key)] == rest[lower_bound(rest, key)]);
        }
    }
}

/// The first index whose entry has no key below `key` is the lower bound.
pub proof fn lemma_lower_bound_is(entries: Seq<(Seq<char>, Frame)>, key: Seq<char>, at: int)
    requires
        0 <= at <= entries.len(),
        forall|j: int| 0 <= j < at ==> key_lt(#[trigger] entries[j].0, key),
        at < entries.len() ==> !key_lt(entries[at].0, key),
    ensures
        lower_bound(entries, key) == at,
    decreases entries.len(),
{
    if at > 0 {
        let rest = entries.skip(1);
        assert(key_lt(entries[0].0, key));
        assert forall|j: int| 0 <= j < at - 1 implies key_lt(#[trigger] rest[j].0, key) by {
            assert(rest[j] == entries[j + 1]);
        }
        if at - 1 < rest.len() {
            assert(rest[at - 1] == entries[at]);
        }
        lemma_lower_bound_is(rest, key, at - 1);
    }
}

/// Giving a key a value keeps the keys in order.
pub proof fn lemma_insert_entry_ascends(
    entries: Seq<(Seq<char>, Frame)>,
    key: Seq<char>,
    value: Frame,
)
    requires
        keys_ascend(entries),
    ensures
        keys_ascend(insert_entry(entries, key, value)),
{
    lemma_lower_bound(entries, key);
    let at = lower_bound(entries, key);
    let after = insert_entry(entries, key, value);
    if at < entries.len() && entries[at].0 == key {
        assert forall|i: int, j: int| 0 <= i < j < after.len() implies key_lt(
            #[trigger] after[i].0,
            #[trigger] after[j].0,
        ) by {
            assert(after[i].0 == entries[i].0);
            assert(after[j].0 == entries[j].0);
        }
    } else {
        assert forall|i: int, j: int| 0 <= i < j < after.len() implies key_lt(
            #[trigger] after[i].0,
            #[trigger] after[j].0,
        ) by {
            if j < at {
                assert(after[i] == entries[i] && after[j] == entries[j]);
            } else if j == at {
                assert(after[i] == entries[i]);
            } else if i == at {
                assert(after[j] == entries[j - 1]);
                lemma_key_lt_total(key, entries[at].0);
                if j - 1 > at {
                    assert(key_lt(entries[at].0, entries[j - 1].0));
                    lemma_key_lt_transitive(key, entries[at].0, entries[j - 1].0);
                }
            } else if i < at {
                assert(after[i] == entries[i] && after[j] == entries[j - 1]);
            } else {
                assert(after[i] == entries[i - 1] && after[j] == entries[j - 1]);
            }
        }
    }
}

/// A map built from pairs holds its keys in order.
pub proof fn lemma_entries_of_ascend(pairs: Seq<(Seq<char>, Frame)>)
    ensures
        keys_ascend(entries_of(pairs)),
    decreases pairs.len(),
{
    if pairs.len() > 0 {
        lemma_entries_of_ascend(pairs.drop_last());
        lemma_insert_entry_ascends(entries_of(pairs.drop_last()), pairs.last().0, pairs.last().1);
    }
}

} // verus!
