use vstd::prelude::*;
use vstd::utf8::encode_utf8;
use crate::text::{
    lemma_append_keeps_range, lemma_appended_text, lemma_empty_bytes_empty_text, range_is_text,
    range_text, read_range,
};

verus! {

/// An append-only store of strings. Every `put` appends, whether or not the
/// same text is in the store already.
pub struct StrArena {
    pub buffer: Vec<u8>,
}

/// Where a string lies in the buffer of the arena that handed this out: its
/// first byte, and the byte behind its last.
#[derive(Debug, Clone, Copy, PartialEq, Eq, Hash)]
pub struct Id {
    from: u32,
    to: u32,
}

impl View for Id {
    type V = (nat, nat);

    closed spec fn view(&self) -> (nat, nat) {
        (self.from as nat, self.to as nat)
    }
}

/// What `put` does to a buffer: the buffer with the bytes appended, and the
/// range that the bytes now lie in.
pub open spec fn appended(buffer: Seq<u8>, bytes: Seq<u8>) -> (Seq<u8>, (nat, nat)) {
    (buffer + bytes, (buffer.len(), buffer.len() + bytes.len()))
}

impl StrArena {
    /// `id` names a range of this arena's buffer that holds text.
    pub open spec fn resolves(&self, id: Id) -> bool {
        range_is_text(self.buffer@, id@.0 as int, id@.1 as int)
    }

    /// The text that `id` names in this arena.
    pub open spec fn text(&self, id: Id) -> Seq<char> {
        range_text(self.buffer@, id@.0 as int, id@.1 as int)
    }

    /// Appends `val` and hands back where it lies.
    pub fn put(&mut self, val: &str) -> (id: Id)
        requires
            old(self).buffer@.len() + encode_utf8(val@).len() <= u32::MAX,
        ensures
            (final(self).buffer@, id@) == appended(old(self).buffer@, encode_utf8(val@)),
            final(self).resolves(id),
            final(self).text(id) == val@,
            forall|other: Id| #[trigger]
                old(self).resolves(other) ==> final(self).resolves(other) && final(self).text(
                    other,
                ) == old(self).text(other),
    {
        let from = self.buffer.len() as u32;
        let to = from + val.len() as u32;
        self.buffer.extend_from_slice(val.as_bytes());
        proof {
            assert(self.buffer@ =~= old(self).buffer@ + encode_utf8(val@));
            lemma_appended_text(old(self).buffer@, val@);
            assert forall|other: Id| #[trigger] old(self).resolves(other) implies self.resolves(
                other,
            ) && self.text(other) == old(self).text(other) by {
                lemma_append_keeps_range(
                    old(self).buffer@,
                    encode_utf8(val@),
                    other@.0 as int,
                    other@.1 as int,
                );
            }
        }
        Id { from, to }
    }

    /// The text that `id` names, or `None` where `id` names no text of this
    /// arena.
    pub fn try_get<'a>(&'a self, id: Id) -> (text: Option<&'a str>)
        ensures
            text is Some <==> self.resolves(id),
            text matches Some(s) ==> s@ == self.text(id),
    {
        read_range(&self.buffer, id.from as usize, id.to as usize)
    }

    /// The text that `id` names.
    pub fn get<'a>(&'a self, id: Id) -> (text: &'a str)
        requires
            self.resolves(id),
        ensures
            text@ == self.text(id),
    {
        let text = self.try_get(id);
        text.unwrap()
    }
}

impl Default for StrArena {
    fn default() -> (arena: Self)
        ensures
            arena.buffer@ == Seq::<u8>::empty(),
    {
        StrArena { buffer: Vec::new() }
    }
}

/// The arena does not look for text that it has already: the same text put
/// twice lies in two ranges. Unless the text is empty the two ranges are
/// different, and both read back as the text.
pub proof fn lemma_put_twice(buffer: Seq<u8>, text: Seq<char>)
    ensures
        ({
            let bytes = encode_utf8(text);
            let (once, first) = appended(buffer, bytes);
            let (twice, second) = appended(once, bytes);
            &&& text.len() > 0 ==> first != second
            &&& range_is_text(twice, first.0 as int, first.1 as int)
            &&& range_is_text(twice, second.0 as int, second.1 as int)
            &&& range_text(twice, first.0 as int, first.1 as int) == text
            &&& range_text(twice, second.0 as int, second.1 as int) == text
        }),
{
    let bytes = encode_utf8(text);
    let (once, first) = appended(buffer, bytes);
    let (twice, second) = appended(once, bytes);
    lemma_empty_bytes_empty_text(text);
    lemma_appended_text(buffer, text);
    lemma_appended_text(once, text);
    lemma_append_keeps_range(once, bytes, first.0 as int, first.1 as int);
}

/// What the arena has handed out stays readable, with the same text,
/// whatever is put into it later.
pub proof fn lemma_put_keeps(buffer: Seq<u8>, bytes: Seq<u8>, from: int, to: int)
    requires
        range_is_text(buffer, from, to),
    ensures
        range_is_text(appended(buffer, bytes).0, from, to),
        range_text(appended(buffer, bytes).0, from, to) == range_text(buffer, from, to),
{
    lemma_append_keeps_range(buffer, bytes, from, to);
}

} // verus!
