use std::collections::HashMap;
use std::hash::Hash;
use std::marker::PhantomData;
use vstd::prelude::*;
use vstd::utf8::encode_utf8;
use crate::text::{
    lemma_append_keeps_range, lemma_appended_text, range_is_text, range_text, read_range,
};

verus! {

broadcast use vstd::std_specs::hash::group_hash_axioms;

/// The Fx hash of a piece of text: what `fxhash::hash` gives for a `&str`
/// that holds the text. The hasher takes no seed, so on one target the same
/// text has the same hash in every run.
pub uninterp spec fn fx_hash_text(text: Seq<char>) -> usize;

/// The Fx hash of `value`. This is `fxhash::hash` on a `&str`: it feeds the
/// string's bytes to a hasher that starts from a fixed state, so the result
/// depends on the text alone.
#[verifier::external_body]
fn hash_text(value: &str) -> (key: usize)
    ensures
        key == fx_hash_text(value@),
{
    fxhash::hash(&value)
}

/// The Fx hash of `value`. This is `fxhash::hash` on a value of any type
/// that can be hashed: what comes out is up to that type's way of hashing
/// itself, so nothing is promised of it.
#[verifier::external_body]
fn hash_value<T: Hash>(value: &T) -> (key: usize) {
    fxhash::hash(value)
}

/// A handle for a value in a `SizedInterner`: the value's index, and the
/// tag of the interner that handed it out.
#[derive(Debug, PartialEq, Eq, Hash)]
pub struct Interned<T: ?Sized> {
    pub inner: usize,
    interner: usize,
    _marker: PhantomData<T>,
}

impl<T: ?Sized> Clone for Interned<T> {
    fn clone(&self) -> (copy: Self)
        ensures
            copy == *self,
    {
        Interned { inner: self.inner, interner: self.interner, _marker: PhantomData }
    }
}

impl<T: ?Sized> Copy for Interned<T> {

}

impl<T: ?Sized> Interned<T> {
    /// The tag of the interner that handed this out.
    pub closed spec fn interner(self) -> usize {
        self.interner
    }

    /// The index of the value that this names.
    pub closed spec fn index(self) -> usize {
        self.inner
    }
}

/// A handle for a string in a `StrInterner`: the range of the string's
/// bytes, and the tag of the interner that handed it out.
#[derive(Debug, Clone, Copy, PartialEq, Eq, Hash)]
pub struct InternedStr {
    pub inner: (u32, u32),
    interner: usize,
}

impl InternedStr {
    /// The tag of the interner that handed this out.
    pub closed spec fn interner(self) -> usize {
        self.interner
    }

    /// The range of bytes that this names.
    pub closed spec fn range(self) -> (u32, u32) {
        self.inner
    }
}

/// A `SizedInterner` as a mathematical value: its tag, the values in the
/// order they came, and for each hash seen so far the index of the value
/// that came with it first.
pub ghost struct Store<T> {
    pub id: usize,
    pub lookup: Map<usize, usize>,
    pub data: Seq<T>,
}

impl<T> Store<T> {
    pub open spec fn empty(id: usize) -> Self {
        Store { id, lookup: Map::empty(), data: Seq::empty() }
    }

    /// Every hash leads to a value that is there, and no two hashes lead to
    /// the same one.
    pub open spec fn wf(self) -> bool {
        &&& self.data.len() <= usize::MAX
        &&& forall|k: usize| #[trigger]
            self.lookup.contains_key(k) ==> self.lookup[k] < self.data.len()
        &&& forall|k1: usize, k2: usize|
            #![trigger self.lookup[k1], self.lookup[k2]]
            self.lookup.contains_key(k1) && self.lookup.contains_key(k2) && k1 != k2
                ==> self.lookup[k1] != self.lookup[k2]
    }

    /// Storing `value` under the hash `key`: where the hash was seen before
    /// nothing changes and the old index is handed back; else the value is
    /// appended and its index is handed back.
    pub open spec fn put(self, key: usize, value: T) -> (Self, usize) {
        if self.lookup.contains_key(key) {
            (self, self.lookup[key])
        } else {
            (
                Store {
                    lookup: self.lookup.insert(key, self.data.len() as usize),
                    data: self.data.push(value),
                    ..self
                },
                self.data.len() as usize,
            )
        }
    }

    /// A handle with tag `tag` and index `index` names a value of this
    /// store.
    pub open spec fn resolves(self, tag: usize, index: usize) -> bool {
        tag == self.id && index < self.data.len()
    }
}

/// A store of values of one type. A value is stored once for each hash:
/// whatever comes later with the same hash gets the handle of the first.
pub struct SizedInterner<T> {
    id: usize,
    lookup: HashMap<usize, usize>,
    data: Vec<T>,
}

impl<T> View for SizedInterner<T> {
    type V = Store<T>;

    closed spec fn view(&self) -> Store<T> {
        Store { id: self.id, lookup: self.lookup@, data: self.data@ }
    }
}

impl<T> SizedInterner<T> {
    /// An empty interner with the tag `id`. Handles are told apart by the
    /// tag, so no two interners in use should share one.
    pub fn new(id: usize) -> (interner: Self)
        ensures
            interner@ == Store::<T>::empty(id),
            interner@.wf(),
    {
        Self { id, lookup: HashMap::new(), data: Vec::new() }
    }

    /// `interned` was handed out by this interner.
    pub open spec fn owns(&self, interned: Interned<T>) -> bool {
        self@.resolves(interned.interner(), interned.index())
    }

    /// Stores `value` under the hash `key`, unless that hash is there
    /// already, and hands back the handle of what is stored under it.
    pub fn put_keyed(&mut self, key: usize, value: T) -> (handle: Interned<T>)
        requires
            old(self)@.wf(),
        ensures
            final(self)@.wf(),
            final(self)@ == old(self)@.put(key, value).0,
            handle.index() == old(self)@.put(key, value).1,
            handle.interner() == old(self)@.id,
            final(self).owns(handle),
            forall|other: Interned<T>| #[trigger]
                old(self).owns(other) ==> final(self).owns(other)
                    && final(self)@.data[other.index() as int] == old(self)@.data[other.index() as int],
    {
        let found = self.lookup.get(&key);
        let id = match found {
            Some(id) => *id,
            None => {
                let id = self.data.len();
                self.lookup.insert(key, id);
                self.data.push(value);
                id
            },
        };
        proof {
            assert(self.data@.len() == self.data.len());
            assert(self@.lookup =~= old(self)@.put(key, value).0.lookup);
        }
        Interned { inner: id, interner: self.id, _marker: PhantomData }
    }

    /// The value that `interned` names, or `None` where `interned` was not
    /// handed out by this interner.
    pub fn try_get<'a>(&'a self, interned: &Interned<T>) -> (found: Option<&'a T>)
        ensures
            found is Some <==> self.owns(*interned),
            found matches Some(value) ==> *value == self@.data[interned.index() as int],
    {
        if interned.interner != self.id || interned.inner >= self.data.len() {
            None
        } else {
            Some(&self.data[interned.inner])
        }
    }

    /// The value that `interned` names.
    pub fn get<'a>(&'a self, interned: &Interned<T>) -> (value: &'a T)
        requires
            self.owns(*interned),
        ensures
            *value == self@.data[interned.index() as int],
    {
        &self.data[interned.inner]
    }
}

impl<T> Default for SizedInterner<T> {
    /// An empty interner with the tag 0.
    fn default() -> (interner: Self)
        ensures
            interner@ == Store::<T>::empty(0),
            interner@.wf(),
    {
        Self::new(0)
    }
}

impl<T: Hash> SizedInterner<T> {
    /// Stores `value` under its Fx hash, unless that hash is there already,
    /// and hands back the handle of what is stored under it.
    pub fn put(&mut self, value: T) -> (handle: Interned<T>)
        requires
            old(self)@.wf(),
        ensures
            final(self)@.wf(),
            exists|key: usize|
                final(self)@ == #[trigger] old(self)@.put(key, value).0 && handle.index() == old(
                    self,
                )@.put(key, value).1,
            handle.interner() == old(self)@.id,
            final(self).owns(handle),
            forall|other: Interned<T>| #[trigger]
                old(self).owns(other) ==> final(self).owns(other)
                    && final(self)@.data[other.index() as int] == old(self)@.data[other.index() as int],
    {
        let key = hash_value(&value);
        self.put_keyed(key, value)
    }
}

/// A value that comes with a hash seen before gets the handle of the first
/// value with that hash, and nothing is stored for it.
pub proof fn lemma_put_again<T>(store: Store<T>, key: usize, first: T, second: T)
    requires
        store.wf(),
    ensures
        store.put(key, first).0.put(key, second) == store.put(key, first),
{
}

/// A value that comes with a hash not seen before is what its handle names.
pub proof fn lemma_put_reads_back<T>(store: Store<T>, key: usize, value: T)
    requires
        store.wf(),
        !store.lookup.contains_key(key),
    ensures
        store.put(key, value).0.resolves(store.id, store.put(key, value).1),
        store.put(key, value).0.data[store.put(key, value).1 as int] == value,
{
}

/// Values that come with different hashes get different handles.
pub proof fn lemma_put_distinct<T>(store: Store<T>, key1: usize, value1: T, key2: usize, value2: T)
    requires
        store.wf(),
        store.put(key1, value1).0.wf(),
        key1 != key2,
    ensures
        store.put(key1, value1).1 != store.put(key1, value1).0.put(key2, value2).1,
{
    let (once, first) = store.put(key1, value1);
    assert(once.lookup.contains_key(key1) && once.lookup[key1] == first);
}

/// Storing keeps a store well formed.
pub proof fn lemma_put_wf<T>(store: Store<T>, key: usize, value: T)
    requires
        store.wf(),
        store.data.len() < usize::MAX || store.lookup.contains_key(key),
    ensures
        store.put(key, value).0.wf(),
{
}

/// What a handle names stays what it is, whatever is stored later.
pub proof fn lemma_put_keeps<T>(store: Store<T>, key: usize, value: T, tag: usize, index: usize)
    requires
        store.resolves(tag, index),
    ensures
        store.put(key, value).0.resolves(tag, index),
        store.put(key, value).0.data[index as int] == store.data[index as int],
{
}

/// A handle of one interner names nothing in an interner with another tag.
pub proof fn lemma_foreign_handle<T>(ours: Store<T>, theirs: Store<T>, index: usize)
    requires
        ours.id != theirs.id,
    ensures
        !theirs.resolves(ours.id, index),
{
}


/// A `StrInterner` as a mathematical value: its tag, the bytes of the
/// strings in the order they came, and for each hash seen so far the range
/// of the string that came with it first.
pub ghost struct TextStore {
    pub id: usize,
    pub lookup: Map<usize, (u32, u32)>,
    pub data: Seq<u8>,
}

impl TextStore {
    pub open spec fn empty(id: usize) -> Self {
        TextStore { id, lookup: Map::empty(), data: Seq::empty() }
    }

    /// The text that lies in `range`.
    pub open spec fn text(self, range: (u32, u32)) -> Seq<char> {
        range_text(self.data, range.0 as int, range.1 as int)
    }

    /// A handle with tag `tag` and range `range` names a text of this store.
    pub open spec fn resolves(self, tag: usize, range: (u32, u32)) -> bool {
        tag == self.id && range_is_text(self.data, range.0 as int, range.1 as int)
    }

    /// Every hash leads to a range that holds text.
    pub open spec fn wf(self) -> bool {
        &&& self.data.len() <= u32::MAX
        &&& forall|k: usize| #[trigger]
            self.lookup.contains_key(k) ==> range_is_text(
                self.data,
                self.lookup[k].0 as int,
                self.lookup[k].1 as int,
            )
    }

    /// Every text was stored under its own Fx hash. This holds of a store
    /// that was filled by `intern` alone.
    pub open spec fn hashed(self) -> bool {
        forall|k: usize| #[trigger]
            self.lookup.contains_key(k) ==> fx_hash_text(self.text(self.lookup[k])) == k
    }

    /// There is room for `text`: ranges are counted in 32 bits.
    pub open spec fn fits(self, text: Seq<char>) -> bool {
        self.data.len() + encode_utf8(text).len() <= u32::MAX
    }

    /// `text` can be put under the hash `key`: the hash is there already,
    /// so that nothing is appended, or there is room for the text.
    pub open spec fn takes(self, key: usize, text: Seq<char>) -> bool {
        self.lookup.contains_key(key) || self.fits(text)
    }

    /// `text` can be interned.
    pub open spec fn admits(self, text: Seq<char>) -> bool {
        self.takes(fx_hash_text(text), text)
    }

    /// Storing `text` under the hash `key`: where the hash was seen before
    /// nothing changes and the old range is handed back; else the bytes of
    /// the text are appended and their range is handed back.
    pub open spec fn put(self, key: usize, text: Seq<char>) -> (Self, (u32, u32)) {
        let bytes = encode_utf8(text);
        if self.lookup.contains_key(key) {
            (self, self.lookup[key])
        } else {
            let range = (self.data.len() as u32, (self.data.len() + bytes.len()) as u32);
            (
                TextStore {
                    lookup: self.lookup.insert(key, range),
                    data: self.data + bytes,
                    ..self
                },
                range,
            )
        }
    }

    /// Storing `text` under its own Fx hash.
    pub open spec fn intern(self, text: Seq<char>) -> (Self, (u32, u32)) {
        self.put(fx_hash_text(text), text)
    }
}

/// A store of strings, all in one buffer. A string is stored once for each
/// hash: whatever comes later with the same hash gets the handle of the
/// first.
pub struct StrInterner {
    id: usize,
    lookup: HashMap<usize, (u32, u32)>,
    data: Vec<u8>,
}

impl View for StrInterner {
    type V = TextStore;

    closed spec fn view(&self) -> TextStore {
        TextStore { id: self.id, lookup: self.lookup@, data: self.data@ }
    }
}

impl StrInterner {
    /// An empty interner with the tag `id`. Handles are told apart by the
    /// tag, so no two interners in use should share one.
    pub fn new(id: usize) -> (interner: Self)
        ensures
            interner@ == TextStore::empty(id),
            interner@.wf(),
            interner@.hashed(),
    {
        Self { id, lookup: HashMap::new(), data: Vec::new() }
    }

    /// `interned` names a text of this interner.
    pub open spec fn owns(&self, interned: InternedStr) -> bool {
        self@.resolves(interned.interner(), interned.range())
    }

    /// The number of bytes stored so far.
    pub fn size(&self) -> (bytes: usize)
        ensures
            bytes == self@.data.len(),
    {
        self.data.len()
    }

    /// Stores `value` under the hash `key`, unless that hash is there
    /// already, and hands back the handle of what is stored under it.
    pub fn put_keyed(&mut self, key: usize, value: &str) -> (handle: InternedStr)
        requires
            old(self)@.wf(),
            old(self)@.takes(key, value@),
        ensures
            final(self)@.wf(),
            final(self)@ == old(self)@.put(key, value@).0,
            handle.range() == old(self)@.put(key, value@).1,
            handle.interner() == old(self)@.id,
            final(self).owns(handle),
            !old(self)@.lookup.contains_key(key) ==> final(self)@.text(handle.range()) == value@,
            forall|other: InternedStr| #[trigger]
                old(self).owns(other) ==> final(self).owns(other) && final(self)@.text(
                    other.range(),
                ) == old(self)@.text(other.range()),
    {
        let found = self.lookup.get(&key);
        let id = match found {
            Some(id) => *id,
            None => {
                let from = self.data.len() as u32;
                let to = from + value.len() as u32;
                let id = (from, to);
                self.data.extend_from_slice(value.as_bytes());
                self.lookup.insert(key, id);
                id
            },
        };
        proof {
            assert(self@.lookup =~= old(self)@.put(key, value@).0.lookup);
            assert(self@.data =~= old(self)@.put(key, value@).0.data);
            lemma_intern_wf(old(self)@, key, value@);
            if !old(self)@.lookup.contains_key(key) {
                lemma_intern_reads_back(old(self)@, key, value@);
            }
            assert forall|other: InternedStr| #[trigger] old(self).owns(other) implies self.owns(
                other,
            ) && self@.text(other.range()) == old(self)@.text(other.range()) by {
                lemma_intern_keeps(old(self)@, key, value@, other.interner(), other.range());
            }
        }
        InternedStr { inner: id, interner: self.id }
    }

    /// Stores `value` under its Fx hash, unless that hash is there already,
    /// and hands back the handle of what is stored under it. In an interner
    /// that was filled in this way alone that is a text with the hash of
    /// `value`, and `value` itself where the hash is new.
    pub fn put(&mut self, value: &str) -> (handle: InternedStr)
        requires
            old(self)@.wf(),
            old(self)@.lookup.contains_key(fx_hash_text(value@)) || old(self)@.fits(value@),
        ensures
            final(self)@.wf(),
            final(self)@ == old(self)@.intern(value@).0,
            handle.range() == old(self)@.intern(value@).1,
            handle.interner() == old(self)@.id,
            final(self).owns(handle),
            !old(self)@.lookup.contains_key(fx_hash_text(value@)) ==> final(self)@.text(
                handle.range(),
            ) == value@,
            old(self)@.hashed() ==> final(self)@.hashed() && fx_hash_text(
                final(self)@.text(handle.range()),
            ) == fx_hash_text(value@),
            forall|other: InternedStr| #[trigger]
                old(self).owns(other) ==> final(self).owns(other) && final(self)@.text(
                    other.range(),
                ) == old(self)@.text(other.range()),
    {
        let key = hash_text(value);
        let handle = self.put_keyed(key, value);
        proof {
            if old(self)@.hashed() {
                lemma_intern_hashed(old(self)@, value@);
            }
        }
        handle
    }

    /// Stores `value` as `put` does, where its hash is there already or
    /// there is room for it; else leaves the interner as it is and hands
    /// back `None`.
    pub fn try_put(&mut self, value: &str) -> (found: Option<InternedStr>)
        requires
            old(self)@.wf(),
        ensures
            final(self)@.wf(),
            found is Some <==> old(self)@.admits(value@),
            found is None ==> final(self)@ == old(self)@,
            found matches Some(handle) ==> {
                &&& final(self)@ == old(self)@.intern(value@).0
                &&& handle.range() == old(self)@.intern(value@).1
                &&& handle.interner() == old(self)@.id
                &&& final(self).owns(handle)
            },
            old(self)@.hashed() ==> final(self)@.hashed(),
            forall|other: InternedStr| #[trigger]
                old(self).owns(other) ==> final(self).owns(other) && final(self)@.text(
                    other.range(),
                ) == old(self)@.text(other.range()),
    {
        let key = hash_text(value);
        let stored = self.lookup.contains_key(&key);
        let room = u32::MAX as usize - self.data.len();
        if stored || value.as_bytes().len() <= room {
            Some(self.put(value))
        } else {
            None
        }
    }

    /// The text that `interned` names, or `None` where `interned` names no
    /// text of this interner.
    pub fn try_get<'a>(&'a self, interned: &InternedStr) -> (found: Option<&'a str>)
        ensures
            found is Some <==> self.owns(*interned),
            found matches Some(text) ==> text@ == self@.text(interned.range()),
    {
        if interned.interner != self.id {
            None
        } else {
            read_range(&self.data, interned.inner.0 as usize, interned.inner.1 as usize)
        }
    }

    /// The text that `interned` names.
    pub fn get<'a>(&'a self, interned: &InternedStr) -> (text: &'a str)
        requires
            self.owns(*interned),
        ensures
            text@ == self@.text(interned.range()),
    {
        let found = self.try_get(interned);
        found.unwrap()
    }
}

impl Default for StrInterner {
    /// An empty interner with the tag 0.
    fn default() -> (interner: Self)
        ensures
            interner@ == TextStore::empty(0),
            interner@.wf(),
            interner@.hashed(),
    {
        Self::new(0)
    }
}

/// Storing keeps a store well formed, and the handle that comes back names
/// a text of the store.
pub proof fn lemma_intern_wf(store: TextStore, key: usize, text: Seq<char>)
    requires
        store.wf(),
        store.takes(key, text),
    ensures
        store.put(key, text).0.wf(),
        store.put(key, text).0.resolves(store.id, store.put(key, text).1),
{
    let bytes = encode_utf8(text);
    let (after, range) = store.put(key, text);
    if !store.lookup.contains_key(key) {
        lemma_appended_text(store.data, text);
        assert forall|k: usize| #[trigger] after.lookup.contains_key(k) implies range_is_text(
            after.data,
            after.lookup[k].0 as int,
            after.lookup[k].1 as int,
        ) by {
            if k != key {
                assert(store.lookup.contains_key(k));
                lemma_append_keeps_range(
                    store.data,
                    bytes,
                    store.lookup[k].0 as int,
                    store.lookup[k].1 as int,
                );
            }
        }
    }
}

/// Interning keeps every text under its own hash, and the handle that
/// comes back names a text with the hash of the text that was put.
pub proof fn lemma_intern_hashed(store: TextStore, text: Seq<char>)
    requires
        store.wf(),
        store.hashed(),
        store.admits(text),
    ensures
        store.intern(text).0.hashed(),
        fx_hash_text(store.intern(text).0.text(store.intern(text).1)) == fx_hash_text(text),
{
    let key = fx_hash_text(text);
    let bytes = encode_utf8(text);
    let (after, range) = store.intern(text);
    if !store.lookup.contains_key(key) {
        lemma_appended_text(store.data, text);
        assert forall|k: usize| #[trigger] after.lookup.contains_key(k) implies fx_hash_text(
            after.text(after.lookup[k]),
        ) == k by {
            if k != key {
                assert(store.lookup.contains_key(k));
                lemma_append_keeps_range(
                    store.data,
                    bytes,
                    store.lookup[k].0 as int,
                    store.lookup[k].1 as int,
                );
            }
        }
    }
}

/// A text that comes with a hash seen before gets the handle of the first
/// text with that hash, and nothing is stored for it: so a text put a
/// second time gets the handle it got the first time.
pub proof fn lemma_intern_again(store: TextStore, key: usize, first: Seq<char>, second: Seq<char>)
    ensures
        store.put(key, first).0.put(key, second) == store.put(key, first),
{
}

/// A text that comes with a new hash is what its handle names.
pub proof fn lemma_intern_reads_back(store: TextStore, key: usize, text: Seq<char>)
    requires
        store.wf(),
        store.fits(text),
        !store.lookup.contains_key(key),
    ensures
        store.put(key, text).0.text(store.put(key, text).1) == text,
{
    lemma_appended_text(store.data, text);
}

/// Texts with different hashes get different handles.
pub proof fn lemma_intern_distinct(store: TextStore, first: Seq<char>, second: Seq<char>)
    requires
        store.wf(),
        store.hashed(),
        store.admits(first),
        store.intern(first).0.admits(second),
    ensures
        fx_hash_text(first) != fx_hash_text(second) ==> store.intern(first).1 != store.intern(
            first,
        ).0.intern(second).1,
{
    let (once, range1) = store.intern(first);
    lemma_intern_wf(store, fx_hash_text(first), first);
    lemma_intern_hashed(store, first);
    lemma_intern_wf(once, fx_hash_text(second), second);
    lemma_intern_hashed(once, second);
    lemma_intern_keeps(once, fx_hash_text(second), second, once.id, range1);
}

/// What a handle names stays what it is, whatever is stored later.
pub proof fn lemma_intern_keeps(
    store: TextStore,
    key: usize,
    text: Seq<char>,
    tag: usize,
    range: (u32, u32),
)
    requires
        store.resolves(tag, range),
    ensures
        store.put(key, text).0.resolves(tag, range),
        store.put(key, text).0.text(range) == store.text(range),
{
    lemma_append_keeps_range(store.data, encode_utf8(text), range.0 as int, range.1 as int);
}

/// A handle of one interner names nothing in an interner with another tag.
pub proof fn lemma_foreign_text_handle(ours: TextStore, theirs: TextStore, range: (u32, u32))
    requires
        ours.id != theirs.id,
    ensures
        !theirs.resolves(ours.id, range),
{
}

} // verus!
