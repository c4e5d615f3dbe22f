use vstd::prelude::*;
use vstd::utf8::{decode_utf8, encode_utf8, valid_utf8};

verus! {

/// The bytes of `buffer` from `from` up to, not including, `to` are there
/// and hold well-formed text.
pub open spec fn range_is_text(buffer: Seq<u8>, from: int, to: int) -> bool {
    0 <= from <= to <= buffer.len() && valid_utf8(buffer.subrange(from, to))
}

/// The text that the bytes of `buffer` from `from` up to `to` hold.
pub open spec fn range_text(buffer: Seq<u8>, from: int, to: int) -> Seq<char> {
    decode_utf8(buffer.subrange(from, to))
}

/// Bytes appended to a buffer are a range of text in it, and they read back
/// as the text they were made from.
pub proof fn lemma_appended_text(buffer: Seq<u8>, text: Seq<char>)
    ensures
        range_is_text(
            buffer + encode_utf8(text),
            buffer.len() as int,
            (buffer.len() + encode_utf8(text).len()) as int,
        ),
        range_text(
            buffer + encode_utf8(text),
            buffer.len() as int,
            (buffer.len() + encode_utf8(text).len()) as int,
        ) == text,
{
    let bytes = encode_utf8(text);
    let more = buffer + bytes;
    assert(more.subrange(buffer.len() as int, (buffer.len() + bytes.len()) as int) =~= bytes);
    vstd::utf8::encode_utf8_valid_utf8(text);
    vstd::utf8::encode_utf8_decode_utf8(text);
}

/// Appending to a buffer leaves the ranges that were in it as they are.
pub proof fn lemma_append_keeps_range(buffer: Seq<u8>, bytes: Seq<u8>, from: int, to: int)
    requires
        0 <= from <= to <= buffer.len(),
    ensures
        (buffer + bytes).subrange(from, to) == buffer.subrange(from, to),
{
    assert((buffer + bytes).subrange(from, to) =~= buffer.subrange(from, to));
}

/// Text that is not empty takes at least one byte, and empty text takes
/// none.
pub proof fn lemma_empty_bytes_empty_text(text: Seq<char>)
    ensures
        encode_utf8(text).len() == 0 <==> text.len() == 0,
{
    vstd::utf8::encode_utf8_decode_utf8(text);
    if encode_utf8(text).len() == 0 {
        assert(encode_utf8(text) =~= Seq::<u8>::empty());
        assert(encode_utf8(Seq::<char>::empty()) =~= Seq::<u8>::empty()) by {
            reveal_with_fuel(encode_utf8, 1);
        }
        vstd::utf8::encode_utf8_decode_utf8(Seq::<char>::empty());
        assert(text == Seq::<char>::empty());
    } else if text.len() == 0 {
        assert(text =~= Seq::<char>::empty());
        reveal_with_fuel(encode_utf8, 1);
    }
}

/// Reads `bytes` as text. This is `std::str::from_utf8`: it succeeds on
/// exactly the well-formed UTF-8 sequences, and the string slice that it
/// hands back is made of the very bytes it was given.
#[verifier::external_body]
pub(crate) fn text_of_bytes(bytes: &[u8]) -> (text: Option<&str>)
    ensures
        text is Some <==> valid_utf8(bytes@),
        text matches Some(s) ==> encode_utf8(s@) == bytes@,
{
    match std::str::from_utf8(bytes) {
        Ok(s) => Some(s),
        Err(_) => None,
    }
}

/// The text in `buffer` from `from` up to `to`, or `None` where that range
/// is not in the buffer or does not hold well-formed text.
pub fn read_range(buffer: &Vec<u8>, from: usize, to: usize) -> (text: Option<&str>)
    ensures
        text is Some <==> range_is_text(buffer@, from as int, to as int),
        text matches Some(s) ==> s@ == range_text(buffer@, from as int, to as int),
{
    if from > to || to > buffer.len() {
        return None;
    }
    let bytes = vstd::slice::slice_subrange(buffer.as_slice(), from, to);
    let text = text_of_bytes(bytes);
    proof {
        if let Some(s) = text {
            vstd::utf8::encode_utf8_decode_utf8(s@);
        }
    }
    text
}

} // verus!
