//! Frames as values of the program, and their models.
use crate::model::bytes_lt;
use crate::model::entries_of;
use crate::model::insert_entry;
use crate::model::key_lt;
use crate::model::keys_ascend;
use crate::model::Frame;
use crate::model::KeyOrder;
use std::ops::Deref;
use std::ops::DerefMut;
use vstd::prelude::*;
use vstd::slice::slice_to_vec;
use vstd::std_specs::convert::FromSpecImpl;
use vstd::string::StringSliceAdditionalSpecFns;
use vstd::utf8::encode_utf8;

verus! {

/// A line of text.
#[derive(Debug, PartialEq, PartialOrd)]
pub struct SimpleString(pub String);

/// A line of text that reports an error.
#[derive(Debug, PartialEq, PartialOrd)]
pub struct SimpleError(pub String);

/// The null array.
#[derive(Debug, PartialEq, PartialOrd)]
pub struct NullArray;

/// The null.
#[derive(Debug, PartialEq, PartialOrd)]
pub struct Null;

/// The null bulk string.
#[derive(Debug, PartialEq, PartialOrd)]
pub struct NullBulkString;

/// Frames of any kind, in order.
#[derive(Debug, PartialEq, PartialOrd)]
pub struct Array(pub Vec<RespFrame>);

/// A map from text keys to frames. It holds one entry for a key, and its
/// entries in the order of their keys.
///
/// The entries stand in a vector, and the order of the keys is stated here,
/// by their bytes: of the order in which a `BTreeMap` holds `String` keys
/// Verus knows nothing that a proof could use.
#[derive(Debug, PartialEq, PartialOrd)]
pub struct RespMap(Vec<(String, RespFrame)>);

/// Frames of any kind in the order of their arrival. A frame may occur
/// twice.
#[derive(Debug, PartialEq, PartialOrd)]
pub struct RespSet(pub Vec<RespFrame>);

/// A text that reports an error, written with its length.
#[derive(Debug, PartialEq, PartialOrd)]
pub struct BulkError(pub String);

/// Bytes of any value, written with their number.
#[derive(Debug, PartialEq, PartialOrd)]
pub struct BulkString(pub Vec<u8>);

/// One protocol value.
///
/// A double holds its numeral as text: the codec carries the numeral and
/// leaves its value to the caller.
#[derive(Debug, PartialEq, PartialOrd)]
pub enum RespFrame {
    SimpleString(SimpleString),
    Error(SimpleError),
    BulkError(BulkError),
    Integer(i64),
    BulkString(BulkString),
    NullBulkString(NullBulkString),
    Array(Array),
    NullArray(NullArray),
    Null(Null),
    Boolean(bool),
    Double(String),
    RespMap(RespMap),
    RespSet(RespSet),
}

/// The model of one frame.
pub open spec fn frame_model(f: RespFrame) -> Frame
    decreases f, 0nat,
{
    match f {
        RespFrame::SimpleString(s) => Frame::SimpleString(s.0@),
        RespFrame::Error(s) => Frame::Error(s.0@),
        RespFrame::BulkError(s) => Frame::BulkError(s.0@),
        RespFrame::Integer(n) => Frame::Integer(n),
        RespFrame::BulkString(b) => Frame::BulkString(b.0@),
        RespFrame::NullBulkString(_) => Frame::NullBulkString,
        RespFrame::Array(a) => Frame::Array(frames_model(a.0@)),
        RespFrame::NullArray(_) => Frame::NullArray,
        RespFrame::Null(_) => Frame::Null,
        RespFrame::Boolean(b) => Frame::Boolean(b),
        RespFrame::Double(t) => Frame::Double(t@),
        RespFrame::RespMap(m) => Frame::RespMap(m.view()),
        RespFrame::RespSet(s) => Frame::RespSet(frames_model(s.0@)),
    }
}

/// The models of some frames, in order.
pub open spec fn frames_model(v: Seq<RespFrame>) -> Seq<Frame>
    decreases v, 0nat,
{
    Seq::new(
        v.len(),
        |i: int|
            if 0 <= i < v.len() {
                frame_model(v[i])
            } else {
                Frame::Null
            },
    )
}

/// The models of some pairs of a key and a value, in order.
pub open spec fn pairs_model(v: Seq<(String, RespFrame)>) -> Seq<(Seq<char>, Frame)>
    decreases v, 0nat,
{
    Seq::new(
        v.len(),
        |i: int|
            if 0 <= i < v.len() {
                (v[i].0@, frame_model(v[i].1))
            } else {
                (Seq::empty(), Frame::Null)
            },
    )
}

impl View for RespFrame {
    type V = Frame;

    open spec fn view(&self) -> Frame {
        frame_model(*self)
    }
}

impl View for SimpleString {
    type V = Seq<char>;

    open spec fn view(&self) -> Seq<char> {
        self.0@
    }
}

impl View for SimpleError {
    type V = Seq<char>;

    open spec fn view(&self) -> Seq<char> {
        self.0@
    }
}

impl View for BulkError {
    type V = Seq<char>;

    open spec fn view(&self) -> Seq<char> {
        self.0@
    }
}

impl View for BulkString {
    type V = Seq<u8>;

    open spec fn view(&self) -> Seq<u8> {
        self.0@
    }
}

impl View for Null {
    type V = ();

    open spec fn view(&self) -> () {
        ()
    }
}

impl View for NullArray {
    type V = ();

    open spec fn view(&self) -> () {
        ()
    }
}

impl View for NullBulkString {
    type V = ();

    open spec fn view(&self) -> () {
        ()
    }
}

impl View for Array {
    type V = Seq<Frame>;

    open spec fn view(&self) -> Seq<Frame> {
        frames_model(self.0@)
    }
}

impl View for RespSet {
    type V = Seq<Frame>;

    open spec fn view(&self) -> Seq<Frame> {
        frames_model(self.0@)
    }
}

impl View for RespMap {
    type V = Seq<(Seq<char>, Frame)>;

    /// The entries of the map, in the order of their keys.
    closed spec fn view(&self) -> Seq<(Seq<char>, Frame)>
        decreases self, 1nat,
    {
        pairs_model(self.0@)
    }
}

impl SimpleString {
    /// A simple string that holds the text `s`.
    pub fn new(s: String) -> (r: Self)
        ensures
            r@ == s@,
    {
        SimpleString(s)
    }
}

impl SimpleError {
    /// A simple error that holds the text `s`.
    pub fn new(s: String) -> (r: Self)
        ensures
            r@ == s@,
    {
        SimpleError(s)
    }
}

impl BulkString {
    /// A bulk string that holds the bytes `s`.
    pub fn new(s: Vec<u8>) -> (r: Self)
        ensures
            r@ == s@,
    {
        BulkString(s)
    }
}

impl Array {
    /// An array that holds the frames `v`, in their order.
    pub fn new(v: Vec<RespFrame>) -> (r: Self)
        ensures
            r@ == frames_model(v@),
    {
        Array(v)
    }
}

impl RespSet {
    /// A set that holds the frames `s`, in their order.
    pub fn new(s: Vec<RespFrame>) -> (r: Self)
        ensures
            r@ == frames_model(s@),
    {
        RespSet(s)
    }
}

impl BulkError {
    /// A bulk error that holds the text `s`.
    pub fn new(s: String) -> (r: Self)
        ensures
            r@ == s@,
    {
        BulkError(s)
    }
}

/// How the bytes `a` stand to the bytes `b` in the order of byte strings.
pub fn bytes_order(a: &[u8], b: &[u8]) -> (r: KeyOrder)
    ensures
        r == KeyOrder::Before <==> bytes_lt(a@, b@),
        r == KeyOrder::Same <==> a@ == b@,
        r == KeyOrder::After <==> bytes_lt(b@, a@),
{
    let mut i: usize = 0;
    while i < a.len() && i < b.len()
        invariant
            i <= a@.len(),
            i <= b@.len(),
            a@.subrange(0, i as int) == b@.subrange(0, i as int),
        decreases a@.len() - i,
    {
        if a[i] != b[i] {
            proof {
                crate::model::lemma_bytes_lt_skip(a@, b@, i as int);
                crate::model::lemma_bytes_lt_skip(b@, a@, i as int);
                if a@[i as int] < b@[i as int] {
                    crate::model::lemma_bytes_lt_asymmetric(a@, b@);
                } else {
                    crate::model::lemma_bytes_lt_asymmetric(b@, a@);
                }
            }
            if a[i] < b[i] {
                return KeyOrder::Before;
            } else {
                return KeyOrder::After;
            }
        }
        proof {
            assert(a@.subrange(0, i + 1) =~= a@.subrange(0, i as int).push(a@[i as int]));
            assert(b@.subrange(0, i + 1) =~= b@.subrange(0, i as int).push(b@[i as int]));
        }
        i += 1;
    }
    proof {
        crate::model::lemma_bytes_lt_skip(a@, b@, i as int);
        crate::model::lemma_bytes_lt_skip(b@, a@, i as int);
        if i == a@.len() && i == b@.len() {
            assert(a@ =~= a@.subrange(0, i as int));
            assert(b@ =~= b@.subrange(0, i as int));
        } else if i == a@.len() {
            crate::model::lemma_bytes_lt_asymmetric(a@, b@);
        } else {
            crate::model::lemma_bytes_lt_asymmetric(b@, a@);
        }
    }
    if i < b.len() {
        KeyOrder::Before
    } else if i < a.len() {
        KeyOrder::After
    } else {
        KeyOrder::Same
    }
}

/// How the key `a` stands to the key `b` in the order in which a map holds
/// its keys.
pub fn key_order(a: &str, b: &str) -> (r: KeyOrder)
    ensures
        r == KeyOrder::Before <==> key_lt(a@, b@),
        r == KeyOrder::Same <==> a@ == b@,
        r == KeyOrder::After <==> key_lt(b@, a@),
{
    proof {
        if encode_utf8(a@) == encode_utf8(b@) {
            crate::model::lemma_key_bytes_decide(a@, b@);
        }
    }
    bytes_order(a.as_bytes(), b.as_bytes())
}

impl RespMap {
    #[verifier::type_invariant]
    spec fn keys_in_order(self) -> bool {
        keys_ascend(self@)
    }

    /// The map that holds `pairs`, each put in as it comes: of two pairs
    /// with one key the later stays.
    pub fn new(pairs: Vec<(String, RespFrame)>) -> (r: Self)
        ensures
            r@ == entries_of(pairs_model(pairs@)),
            keys_ascend(r@),
    {
        let mut map = RespMap(Vec::new());
        let ghost all = pairs@;
        let mut rest = pairs;
        let mut taken: Vec<(String, RespFrame)> = Vec::new();
        // The pairs come off the back; `taken` holds them back to front.
        while rest.len() > 0
            invariant
                rest@.len() + taken@.len() == all.len(),
                forall|i: int| 0 <= i < rest@.len() ==> rest@[i] == all[i],
                forall|i: int|
                    0 <= i < taken@.len() ==> taken@[i] == all[all.len() - 1 - i],
            decreases rest@.len(),
        {
            let pair = rest.pop().unwrap();
            taken.push(pair);
        }
        let ghost mut done: Seq<(String, RespFrame)> = Seq::empty();
        proof {
            assert(pairs_model(done) =~= Seq::empty());
        }
        while taken.len() > 0
            invariant
                done.len() + taken@.len() == all.len(),
                done == all.subrange(0, done.len() as int),
                forall|i: int|
                    0 <= i < taken@.len() ==> taken@[i] == all[all.len() - 1 - i],
                map@ == entries_of(pairs_model(done)),
            decreases taken@.len(),
        {
            let pair = taken.pop().unwrap();
            proof {
                let next = done.push(pair);
                assert(next =~= all.subrange(0, done.len() as int + 1));
                assert(pairs_model(next).drop_last() =~= pairs_model(done));
                assert(pairs_model(next).last() == (pair.0@, frame_model(pair.1)));
                done = next;
            }
            map.insert(pair.0, pair.1);
        }
        proof {
            assert(done =~= all);
            use_type_invariant(&map);
        }
        map
    }

    /// The number of entries.
    pub fn len(&self) -> (n: usize)
        ensures
            n == self@.len(),
            keys_ascend(self@),
    {
        proof {
            use_type_invariant(self);
        }
        self.0.len()
    }

    /// The key of the entry at `index`, counting in the order of the keys.
    pub fn key_at(&self, index: usize) -> (key: &String)
        requires
            index < self@.len(),
        ensures
            key@ == self@[index as int].0,
    {
        &self.0[index].0
    }

    /// The value of the entry at `index`, counting in the order of the keys.
    pub fn value_at(&self, index: usize) -> (value: &RespFrame)
        requires
            index < self@.len(),
        ensures
            value@ == self@[index as int].1,
            decreases_to!(self => value),
    {
        &self.0[index].1
    }

    /// The entries of the map, in the order of their keys.
    pub fn into_entries(self) -> (entries: Vec<(String, RespFrame)>)
        ensures
            pairs_model(entries@) == self@,
            keys_ascend(self@),
    {
        proof {
            use_type_invariant(&self);
        }
        self.0
    }

    /// The value that `key` has, if it has one.
    pub fn get(&self, key: &str) -> (value: Option<&RespFrame>)
        ensures
            match value {
                Some(v) => exists|i: int|
                    0 <= i < self@.len() && #[trigger] self@[i] == (key@, v@),
                None => forall|i: int| 0 <= i < self@.len() ==> (#[trigger] self@[i]).0 != key@,
            },
    {
        let mut i: usize = 0;
        while i < self.0.len()
            invariant
                i <= self@.len(),
                forall|j: int| 0 <= j < i ==> (#[trigger] self@[j]).0 != key@,
            decreases self@.len() - i,
        {
            if key_order(self.0[i].0.as_str(), key) == KeyOrder::Same {
                assert(self@[i as int] == (key@, self.0@[i as int].1@));
                return Some(&self.0[i].1);
            }
            i += 1;
        }
        None
    }

    /// Gives `key` the value `value`: the entry of that key is replaced where
    /// the map has one, else a new entry stands at the key's place.
    pub fn insert(&mut self, key: String, value: RespFrame)
        ensures
            final(self)@ == insert_entry(old(self)@, key@, value@),
            keys_ascend(final(self)@),
    {
        proof {
            use_type_invariant(&*self);
            crate::model::lemma_insert_entry_ascends(self@, key@, value@);
        }
        let ghost before = self@;
        let mut entries: Vec<(String, RespFrame)> = Vec::new();
        std::mem::swap(&mut self.0, &mut entries);
        let mut i: usize = 0;
        let mut found: bool = false;
        while i < entries.len()
            invariant_except_break
                !found,
            invariant
                i <= entries@.len(),
                pairs_model(entries@) == before,
                forall|j: int| 0 <= j < i ==> key_lt(#[trigger] before[j].0, key@),
            ensures
                i <= entries@.len(),
                forall|j: int| 0 <= j < i ==> key_lt(#[trigger] before[j].0, key@),
                i < before.len() ==> !key_lt(before[i as int].0, key@),
                found <==> i < before.len() && before[i as int].0 == key@,
            decreases entries@.len() - i,
        {
            match key_order(entries[i].0.as_str(), key.as_str()) {
                KeyOrder::Before => {
                    i += 1;
                },
                KeyOrder::Same => {
                    proof {
                        crate::model::lemma_key_lt_asymmetric_self(key@);
                    }
                    found = true;
                    break ;
                },
                KeyOrder::After => {
                    proof {
                        crate::model::lemma_key_lt_asymmetric(key@, before[i as int].0);
                    }
                    break ;
                },
            }
        }
        proof {
            crate::model::lemma_lower_bound_is(before, key@, i as int);
        }
        if found {
            entries.set(i, (key, value));
        } else {
            entries.insert(i, (key, value));
        }
        assert(pairs_model(entries@) =~= insert_entry(before, key@, value@));
        std::mem::swap(&mut self.0, &mut entries);
    }
}

impl Deref for SimpleString {
    type Target = String;

    fn deref(&self) -> (r: &String)
        ensures
            r@ == self@,
    {
        &self.0
    }
}

impl Deref for SimpleError {
    type Target = String;

    fn deref(&self) -> (r: &String)
        ensures
            r@ == self@,
    {
        &self.0
    }
}

impl Deref for BulkError {
    type Target = String;

    fn deref(&self) -> (r: &String)
        ensures
            r@ == self@,
    {
        &self.0
    }
}

impl Deref for BulkString {
    type Target = [u8];

    fn deref(&self) -> (r: &[u8])
        ensures
            r@ == self@,
    {
        self.0.as_slice()
    }
}

impl Deref for Array {
    type Target = Vec<RespFrame>;

    fn deref(&self) -> (r: &Vec<RespFrame>)
        ensures
            *r == self.0,
    {
        &self.0
    }
}

impl Deref for RespSet {
    type Target = Vec<RespFrame>;

    fn deref(&self) -> (r: &Vec<RespFrame>)
        ensures
            *r == self.0,
    {
        &self.0
    }
}

impl DerefMut for RespSet {
    fn deref_mut(&mut self) -> (r: &mut Vec<RespFrame>)
        ensures
            *r == old(self).0,
            final(self).0 == *final(r),
    {
        &mut self.0
    }
}

impl From<SimpleString> for RespFrame {
    fn from(v: SimpleString) -> (r: RespFrame) {
        RespFrame::SimpleString(v)
    }
}

impl FromSpecImpl<SimpleString> for RespFrame {
    open spec fn obeys_from_spec() -> bool {
        true
    }

    open spec fn from_spec(v: SimpleString) -> RespFrame {
        RespFrame::SimpleString(v)
    }
}

impl From<SimpleError> for RespFrame {
    fn from(v: SimpleError) -> (r: RespFrame) {
        RespFrame::Error(v)
    }
}

impl FromSpecImpl<SimpleError> for RespFrame {
    open spec fn obeys_from_spec() -> bool {
        true
    }

    open spec fn from_spec(v: SimpleError) -> RespFrame {
        RespFrame::Error(v)
    }
}

impl From<BulkError> for RespFrame {
    fn from(v: BulkError) -> (r: RespFrame) {
        RespFrame::BulkError(v)
    }
}

impl FromSpecImpl<BulkError> for RespFrame {
    open spec fn obeys_from_spec() -> bool {
        true
    }

    open spec fn from_spec(v: BulkError) -> RespFrame {
        RespFrame::BulkError(v)
    }
}

impl From<i64> for RespFrame {
    fn from(v: i64) -> (r: RespFrame) {
        RespFrame::Integer(v)
    }
}

impl FromSpecImpl<i64> for RespFrame {
    open spec fn obeys_from_spec() -> bool {
        true
    }

    open spec fn from_spec(v: i64) -> RespFrame {
        RespFrame::Integer(v)
    }
}

impl From<BulkString> for RespFrame {
    fn from(v: BulkString) -> (r: RespFrame) {
        RespFrame::BulkString(v)
    }
}

impl FromSpecImpl<BulkString> for RespFrame {
    open spec fn obeys_from_spec() -> bool {
        true
    }

    open spec fn from_spec(v: BulkString) -> RespFrame {
        RespFrame::BulkString(v)
    }
}

impl From<NullBulkString> for RespFrame {
    fn from(v: NullBulkString) -> (r: RespFrame) {
        RespFrame::NullBulkString(v)
    }
}

impl FromSpecImpl<NullBulkString> for RespFrame {
    open spec fn obeys_from_spec() -> bool {
        true
    }

    open spec fn from_spec(v: NullBulkString) -> RespFrame {
        RespFrame::NullBulkString(v)
    }
}

impl From<Array> for RespFrame {
    fn from(v: Array) -> (r: RespFrame) {
        RespFrame::Array(v)
    }
}

impl FromSpecImpl<Array> for RespFrame {
    open spec fn obeys_from_spec() -> bool {
        true
    }

    open spec fn from_spec(v: Array) -> RespFrame {
        RespFrame::Array(v)
    }
}

impl From<NullArray> for RespFrame {
    fn from(v: NullArray) -> (r: RespFrame) {
        RespFrame::NullArray(v)
    }
}

impl FromSpecImpl<NullArray> for RespFrame {
    open spec fn obeys_from_spec() -> bool {
        true
    }

    open spec fn from_spec(v: NullArray) -> RespFrame {
        RespFrame::NullArray(v)
    }
}

impl From<Null> for RespFrame {
    fn from(v: Null) -> (r: RespFrame) {
        RespFrame::Null(v)
    }
}

impl FromSpecImpl<Null> for RespFrame {
    open spec fn obeys_from_spec() -> bool {
        true
    }

    open spec fn from_spec(v: Null) -> RespFrame {
        RespFrame::Null(v)
    }
}

impl From<bool> for RespFrame {
    fn from(v: bool) -> (r: RespFrame) {
        RespFrame::Boolean(v)
    }
}

impl FromSpecImpl<bool> for RespFrame {
    open spec fn obeys_from_spec() -> bool {
        true
    }

    open spec fn from_spec(v: bool) -> RespFrame {
        RespFrame::Boolean(v)
    }
}

impl From<RespMap> for RespFrame {
    fn from(v: RespMap) -> (r: RespFrame) {
        RespFrame::RespMap(v)
    }
}

impl FromSpecImpl<RespMap> for RespFrame {
    open spec fn obeys_from_spec() -> bool {
        true
    }

    open spec fn from_spec(v: RespMap) -> RespFrame {
        RespFrame::RespMap(v)
    }
}

impl From<RespSet> for RespFrame {
    fn from(v: RespSet) -> (r: RespFrame) {
        RespFrame::RespSet(v)
    }
}

impl FromSpecImpl<RespSet> for RespFrame {
    open spec fn obeys_from_spec() -> bool {
        true
    }

    open spec fn from_spec(v: RespSet) -> RespFrame {
        RespFrame::RespSet(v)
    }
}

impl From<&str> for SimpleString {
    fn from(s: &str) -> (r: SimpleString)
        ensures
            r@ == s@,
    {
        SimpleString(s.to_owned())
    }
}

/// What `from` returns is stated by its own contract, over the view of the
/// value.
impl FromSpecImpl<&str> for SimpleString {
    open spec fn obeys_from_spec() -> bool {
        false
    }

    open spec fn from_spec(s: &str) -> SimpleString {
        arbitrary()
    }
}

impl From<&str> for SimpleError {
    fn from(s: &str) -> (r: SimpleError)
        ensures
            r@ == s@,
    {
        SimpleError(s.to_owned())
    }
}

/// What `from` returns is stated by its own contract, over the view of the
/// value.
impl FromSpecImpl<&str> for SimpleError {
    open spec fn obeys_from_spec() -> bool {
        false
    }

    open spec fn from_spec(s: &str) -> SimpleError {
        arbitrary()
    }
}

impl From<&str> for BulkString {
    fn from(s: &str) -> (r: BulkString)
        ensures
            r@ == encode_utf8(s@),
    {
        BulkString(slice_to_vec(s.as_bytes()))
    }
}

/// What `from` returns is stated by its own contract, over the view of the
/// value.
impl FromSpecImpl<&str> for BulkString {
    open spec fn obeys_from_spec() -> bool {
        false
    }

    open spec fn from_spec(s: &str) -> BulkString {
        arbitrary()
    }
}

impl From<&str> for BulkError {
    fn from(s: &str) -> (r: BulkError)
        ensures
            r@ == s@,
    {
        BulkError(s.to_owned())
    }
}

/// What `from` returns is stated by its own contract, over the view of the
/// value.
impl FromSpecImpl<&str> for BulkError {
    open spec fn obeys_from_spec() -> bool {
        false
    }

    open spec fn from_spec(s: &str) -> BulkError {
        arbitrary()
    }
}

} // verus!
