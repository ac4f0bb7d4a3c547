//! The frame model: the closed set of values that travel on the wire, and the
//! mathematical content of each.

use crate::order::bytes_lt;
use crate::order::lemma_bytes_lt_transitive;
use crate::order::lemma_bytes_trichotomy;
use crate::order::rank;
use crate::order::Rank;
use vstd::prelude::*;
use vstd::string::StringSliceAdditionalSpecFns;
use vstd::utf8::encode_utf8;
use vstd::utf8::encode_utf8_decode_utf8;

verus! {

/// A line of text, sent after `+`.
#[derive(Debug, PartialEq, Eq)]
pub struct SimpleString(pub String);

/// An error message, sent after `-`.
#[derive(Debug, PartialEq, Eq)]
pub struct SimpleError(pub String);

/// Raw bytes behind a length, sent after `$`.
#[derive(Debug, PartialEq, Eq)]
pub struct BulkString(pub Vec<u8>);

/// The bulk string that is absent. It is not the empty bulk string.
#[derive(Debug, PartialEq, Eq)]
pub struct RespNullBulkString;

/// The null value.
#[derive(Debug, PartialEq, Eq)]
pub struct RespNull;

/// The array that is absent. It is not the empty array.
#[derive(Debug, PartialEq, Eq)]
pub struct RespNullArray;

/// A double, held as the text of its literal.
#[derive(Debug, PartialEq, Eq)]
pub struct RespDouble(pub String);

/// Frames in order, sent after `*` and a count.
#[derive(Debug, PartialEq)]
pub struct RespArray(pub Vec<RespFrame>);

/// Frames in the order held, sent after `~` and a count. Neither sorted nor freed of
/// duplicates.
#[derive(Debug, PartialEq)]
pub struct RespSet(pub Vec<RespFrame>);

/// Frames under text keys, sent after `%` and a count. Each key occurs once, and the
/// entries stand in ascending order of their keys' bytes.
#[derive(Debug, PartialEq)]
pub struct RespMap {
    pub(crate) entries: Vec<(String, RespFrame)>,
}

/// One value of the protocol.
#[derive(Debug, PartialEq)]
pub enum RespFrame {
    SimpleString(SimpleString),
    Error(SimpleError),
    Integer(i64),
    BulkString(BulkString),
    NullBulkString(RespNullBulkString),
    Array(RespArray),
    Null(RespNull),
    NullArray(RespNullArray),
    Boolean(bool),
    Double(RespDouble),
    RespMap(RespMap),
    RespSet(RespSet),
}

/// The mathematical content of a [`RespFrame`].
pub enum Frame {
    SimpleString(Seq<char>),
    Error(Seq<char>),
    Integer(i64),
    BulkString(Seq<u8>),
    NullBulkString,
    Array(Seq<Frame>),
    Null,
    NullArray,
    Boolean(bool),
    Double(Seq<char>),
    RespMap(Seq<(Seq<char>, Frame)>),
    RespSet(Seq<Frame>),
}

/// The entries of a map, in the order in which they are held and sent.
pub type Entries = Seq<(Seq<char>, Frame)>;

impl View for SimpleString {
    type V = Seq<char>;

    open spec fn view(&self) -> Seq<char> {
        self.0@
    }
}

impl View for SimpleError {
    type V = Seq<char>;

    open spec fn view(&self) -> Seq<char> {
        self.0@
    }
}

impl View for BulkString {
    type V = Seq<u8>;

    open spec fn view(&self) -> Seq<u8> {
        self.0@
    }
}

impl View for RespDouble {
    type V = Seq<char>;

    open spec fn view(&self) -> Seq<char> {
        self.0@
    }
}

impl View for RespNull {
    type V = ();

    open spec fn view(&self) -> () {
        ()
    }
}

impl View for RespNullArray {
    type V = ();

    open spec fn view(&self) -> () {
        ()
    }
}

impl View for RespNullBulkString {
    type V = ();

    open spec fn view(&self) -> () {
        ()
    }
}

/// The contents of the frames `items`, one for one.
pub open spec fn frames_view(items: Seq<RespFrame>) -> Seq<Frame>
    decreases items,
{
    Seq::new(
        items.len(),
        |i: int|
            if 0 <= i < items.len() {
                items[i]@
            } else {
                Frame::Null
            },
    )
}

/// The contents of the entries `entries`, one for one.
pub open spec fn entries_view(entries: Seq<(String, RespFrame)>) -> Entries
    decreases entries,
{
    Seq::new(
        entries.len(),
        |i: int|
            if 0 <= i < entries.len() {
                (entries[i].0@, entries[i].1@)
            } else {
                (Seq::empty(), Frame::Null)
            },
    )
}

impl View for RespArray {
    type V = Seq<Frame>;

    open spec fn view(&self) -> Seq<Frame>
        decreases self,
    {
        frames_view(self.0@)
    }
}

impl View for RespSet {
    type V = Seq<Frame>;

    open spec fn view(&self) -> Seq<Frame>
        decreases self,
    {
        frames_view(self.0@)
    }
}

impl View for RespMap {
    type V = Entries;

    closed spec fn view(&self) -> Entries
        decreases self,
    {
        entries_view(self.entries@)
    }
}

impl View for RespFrame {
    type V = Frame;

    open spec fn view(&self) -> Frame
        decreases self,
    {
        match self {
            RespFrame::SimpleString(s) => Frame::SimpleString(s@),
            RespFrame::Error(e) => Frame::Error(e@),
            RespFrame::Integer(i) => Frame::Integer(*i),
            RespFrame::BulkString(b) => Frame::BulkString(b@),
            RespFrame::NullBulkString(_) => Frame::NullBulkString,
            RespFrame::Array(a) => Frame::Array(a@),
            RespFrame::Null(_) => Frame::Null,
            RespFrame::NullArray(_) => Frame::NullArray,
            RespFrame::Boolean(b) => Frame::Boolean(*b),
            RespFrame::Double(d) => Frame::Double(d@),
            RespFrame::RespMap(m) => Frame::RespMap(m@),
            RespFrame::RespSet(s) => Frame::RespSet(s@),
        }
    }
}

impl SimpleString {
    /// A simple string with the text that `s` converts into. Nothing is checked: a
    /// text that holds a terminator is accepted here.
    pub fn new<T: Into<String>>(s: T) -> (made: Self)
        ensures
            call_ensures(<T as Into<String>>::into, (s,), made.0),
    {
        SimpleString(s.into())
    }
}

impl SimpleError {
    /// A simple error with the message that `s` converts into.
    pub fn new<T: Into<String>>(s: T) -> (made: Self)
        ensures
            call_ensures(<T as Into<String>>::into, (s,), made.0),
    {
        SimpleError(s.into())
    }
}

impl BulkString {
    /// A bulk string with the bytes that `b` converts into.
    pub fn new<T: Into<Vec<u8>>>(b: T) -> (made: Self)
        ensures
            call_ensures(<T as Into<Vec<u8>>>::into, (b,), made.0),
    {
        BulkString(b.into())
    }
}

impl RespDouble {
    /// A double with the literal that `s` converts into.
    pub fn new<T: Into<String>>(s: T) -> (made: Self)
        ensures
            call_ensures(<T as Into<String>>::into, (s,), made.0),
    {
        RespDouble(s.into())
    }
}

impl RespArray {
    /// An array of the frames that `frames` converts into, in their order.
    pub fn new<T: Into<Vec<RespFrame>>>(frames: T) -> (made: Self)
        ensures
            call_ensures(<T as Into<Vec<RespFrame>>>::into, (frames,), made.0),
    {
        RespArray(frames.into())
    }
}

impl RespSet {
    /// A set of the frames that `s` converts into, in their order and with their
    /// duplicates.
    pub fn new<T: Into<Vec<RespFrame>>>(s: T) -> (made: Self)
        ensures
            call_ensures(<T as Into<Vec<RespFrame>>>::into, (s,), made.0),
    {
        RespSet(s.into())
    }
}

impl std::ops::Deref for SimpleString {
    type Target = String;

    fn deref(&self) -> (text: &String)
        ensures
            text@ == self@,
    {
        &self.0
    }
}

impl std::ops::Deref for SimpleError {
    type Target = String;

    fn deref(&self) -> (text: &String)
        ensures
            text@ == self@,
    {
        &self.0
    }
}

impl std::ops::Deref for RespArray {
    type Target = Vec<RespFrame>;

    fn deref(&self) -> (frames: &Vec<RespFrame>)
        ensures
            frames_view(frames@) == self@,
    {
        &self.0
    }
}

impl std::ops::Deref for RespSet {
    type Target = Vec<RespFrame>;

    fn deref(&self) -> (frames: &Vec<RespFrame>)
        ensures
            frames_view(frames@) == self@,
    {
        &self.0
    }
}

/// The key `a` stands before the key `b`: so do the bytes of their UTF-8 forms.
pub open spec fn key_before(a: Seq<char>, b: Seq<char>) -> bool {
    bytes_lt(encode_utf8(a), encode_utf8(b))
}

/// Each entry's key stands before the keys of all entries after it. No key occurs
/// twice then.
pub open spec fn keys_ascending(m: Entries) -> bool {
    forall|i: int, j: int| 0 <= i < j < m.len() ==> key_before(#[trigger] m[i].0, #[trigger] m[j].0)
}

/// The first index from `i` on whose entry has a key that does not stand before
/// `key`, or the number of entries if there is none.
pub open spec fn position(m: Entries, key: Seq<char>, i: int) -> int
    decreases m.len() - i,
{
    if 0 <= i < m.len() && key_before(m[i].0, key) {
        position(m, key, i + 1)
    } else {
        i
    }
}

/// The frame that `m` holds under `key`, if it holds one.
pub open spec fn entry_value(m: Entries, key: Seq<char>) -> Option<Frame> {
    let i = position(m, key, 0);
    if i < m.len() && m[i].0 == key {
        Some(m[i].1)
    } else {
        None
    }
}

/// `m` with `value` under `key`: in place of the frame held under that key, or else
/// as a new entry before the first entry with a later key.
pub open spec fn insert_entry(m: Entries, key: Seq<char>, value: Frame) -> Entries {
    let i = position(m, key, 0);
    if i < m.len() && m[i].0 == key {
        m.update(i, (key, value))
    } else {
        m.insert(i, (key, value))
    }
}

/// The entries that result from putting `pairs` into an empty map one after the
/// other: of pairs with the same key the last one stays.
pub open spec fn collect_entries(pairs: Entries) -> Entries
    decreases pairs.len(),
{
    if pairs.len() == 0 {
        Seq::empty()
    } else {
        insert_entry(collect_entries(pairs.drop_last()), pairs.last().0, pairs.last().1)
    }
}

/// Two keys with the same bytes are the same key.
pub proof fn lemma_key_bytes_injective(a: Seq<char>, b: Seq<char>)
    requires
        encode_utf8(a) == encode_utf8(b),
    ensures
        a == b,
{
    encode_utf8_decode_utf8(a);
    encode_utf8_decode_utf8(b);
}

/// All entries before the position of `key` have keys before it, and the entry at
/// the position, if there is one, has not.
pub proof fn lemma_position(m: Entries, key: Seq<char>, i: int)
    requires
        0 <= i <= m.len(),
    ensures
        i <= position(m, key, i) <= m.len(),
        forall|j: int| i <= j < position(m, key, i) ==> key_before(#[trigger] m[j].0, key),
        position(m, key, i) < m.len() ==> !key_before(m[position(m, key, i)].0, key),
    decreases m.len() - i,
{
    if i < m.len() && key_before(m[i].0, key) {
        lemma_position(m, key, i + 1);
    }
}

/// Putting an entry into ascending entries leaves them ascending.
pub proof fn lemma_insert_keeps_ascending(m: Entries, key: Seq<char>, value: Frame)
    requires
        keys_ascending(m),
    ensures
        keys_ascending(insert_entry(m, key, value)),
{
    let i = position(m, key, 0);
    let r = insert_entry(m, key, value);
    lemma_position(m, key, 0);
    if i < m.len() && m[i].0 == key {
        assert forall|a: int, b: int| 0 <= a < b < r.len() implies key_before(
            #[trigger] r[a].0,
            #[trigger] r[b].0,
        ) by {
            assert(r[a].0 == m[a].0);
            assert(r[b].0 == m[b].0);
        }
    } else {
        assert forall|a: int, b: int| 0 <= a < b < r.len() implies key_before(
            #[trigger] r[a].0,
            #[trigger] r[b].0,
        ) by {
            if b < i {
                assert(r[a] == m[a] && r[b] == m[b]);
            } else if b == i {
                assert(r[a] == m[a]);
            } else if a == i {
                // the entry at the position has a later key, and so have all after it
                assert(r[b] == m[b - 1]);
                lemma_bytes_trichotomy(encode_utf8(m[i].0), encode_utf8(key));
                if encode_utf8(m[i].0) == encode_utf8(key) {
                    lemma_key_bytes_injective(m[i].0, key);
                }
                assert(key_before(key, m[i].0));
                if b - 1 > i {
                    assert(key_before(m[i].0, m[b - 1].0));
                    lemma_bytes_lt_transitive(
                        encode_utf8(key),
                        encode_utf8(m[i].0),
                        encode_utf8(m[b - 1].0),
                    );
                }
            } else if a < i {
                assert(r[a] == m[a] && r[b] == m[b - 1]);
            } else {
                assert(r[a] == m[a - 1] && r[b] == m[b - 1]);
            }
        }
    }
}

/// Entries collected from pairs are ascending, whatever the order of the pairs.
pub proof fn lemma_collected_ascending(pairs: Entries)
    ensures
        keys_ascending(collect_entries(pairs)),
    decreases pairs.len(),
{
    if pairs.len() > 0 {
        lemma_collected_ascending(pairs.drop_last());
        lemma_insert_keeps_ascending(
            collect_entries(pairs.drop_last()),
            pairs.last().0,
            pairs.last().1,
        );
    }
}

impl RespMap {
    #[verifier::type_invariant]
    spec fn ordered(self) -> bool {
        keys_ascending(entries_view(self.entries@))
    }

    /// A map without entries.
    pub fn new() -> (m: Self)
        ensures
            m@ == Seq::<(Seq<char>, Frame)>::empty(),
    {
        let m = RespMap { entries: Vec::new() };
        assert(m@ =~= Seq::<(Seq<char>, Frame)>::empty());
        m
    }

    /// The number of entries. The entries of a map are always in ascending order of
    /// their keys.
    pub fn len(&self) -> (n: usize)
        ensures
            n == self@.len(),
            keys_ascending(self@),
    {
        proof {
            use_type_invariant(self);
        }
        self.entries.len()
    }

    /// The key of the entry at `index`, counting in ascending order of keys.
    pub fn key_at(&self, index: usize) -> (key: &String)
        requires
            index < self@.len(),
        ensures
            key@ == self@[index as int].0,
    {
        &self.entries[index].0
    }

    /// The frame of the entry at `index`, counting in ascending order of keys.
    pub fn value_at(&self, index: usize) -> (value: &RespFrame)
        requires
            index < self@.len(),
        ensures
            value@ == self@[index as int].1,
            decreases_to!(self => value),
    {
        &self.entries[index].1
    }

    /// Puts `value` under `key` and returns the frame that was held under that key
    /// before, if there was one.
    pub fn insert(&mut self, key: String, value: RespFrame) -> (previous: Option<RespFrame>)
        ensures
            final(self)@ == insert_entry(old(self)@, key@, value@),
            keys_ascending(final(self)@),
            match previous {
                Some(frame) => entry_value(old(self)@, key@) == Some(frame@),
                None => entry_value(old(self)@, key@) is None,
            },
    {
        proof {
            use_type_invariant(&*self);
            lemma_position(self@, key@, 0);
            lemma_insert_keeps_ascending(self@, key@, value@);
        }
        let ghost before = self@;
        let mut taken = RespMap::new();
        std::mem::swap(self, &mut taken);
        let mut entries = taken.entries;
        let mut i: usize = 0;
        let mut same = false;
        while i < entries.len()
            invariant_except_break
                !same,
                position(before, key@, 0) == position(before, key@, i as int),
            invariant
                i <= entries.len(),
                entries_view(entries@) == before,
            ensures
                i <= entries.len(),
                i == position(before, key@, 0),
                same <==> i < before.len() && before[i as int].0 == key@,
            decreases entries.len() - i,
        {
            let r = rank(entries[i].0.as_str().as_bytes(), key.as_str().as_bytes());
            proof {
                lemma_bytes_trichotomy(encode_utf8(before[i as int].0), encode_utf8(key@));
                if encode_utf8(before[i as int].0) == encode_utf8(key@) {
                    lemma_key_bytes_injective(before[i as int].0, key@);
                }
            }
            if r == Rank::Before {
                i = i + 1;
            } else {
                same = r == Rank::Same;
                break ;
            }
        }
        let previous = if same {
            let held = entries.remove(i);
            Some(held.1)
        } else {
            None
        };
        entries.insert(i, (key, value));
        assert(entries_view(entries@) =~= insert_entry(before, key@, value@));
        *self = RespMap { entries };
        previous
    }
}

} // verus!
