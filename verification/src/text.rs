//! Text made of received bytes, and the bytes that an iterator has left.

use core::slice::Iter;
use vstd::prelude::*;
use vstd::std_specs::iter::IteratorSpec;
use vstd::utf8::{
    decode_utf8, decode_utf8_encode_utf8, encode_utf8, encode_utf8_decode_utf8,
    encode_utf8_valid_utf8, is_ascii_chars, is_ascii_chars_encode_utf8, valid_utf8,
};

verus! {

/// What `String::from_utf8_lossy` makes of some bytes.
pub uninterp spec fn lossy_text(bytes: Seq<u8>) -> Seq<char>;

/// The text that some received bytes stand for: what they encode in UTF-8, and the lossy reading
/// of them where they are not UTF-8.
pub open spec fn text_of(bytes: Seq<u8>) -> Seq<char> {
    if valid_utf8(bytes) {
        decode_utf8(bytes)
    } else {
        lossy_text(bytes)
    }
}

/// The text is what the bytes stand for. It holds the replacement character where they are not
/// UTF-8, and is empty only where there are no bytes.
pub open spec fn is_text(text: Seq<char>, bytes: Seq<u8>) -> bool {
    &&& text == text_of(bytes)
    &&& !valid_utf8(bytes) ==> text.contains('\u{fffd}')
    &&& bytes.len() > 0 ==> text.len() > 0
}

/// The bytes that spell a string.
#[verifier::opaque]
pub open spec fn bytes_of(s: &str) -> Seq<u8> {
    encode_utf8(s@)
}

/// Each character of an ASCII string is spelled by one byte, its own number.
pub proof fn lemma_bytes_of_ascii(s: &str)
    requires
        is_ascii_chars(s@),
    ensures
        bytes_of(s).len() == s@.len(),
        forall|i: int| 0 <= i < s@.len() ==> #[trigger] bytes_of(s)[i] == s@[i] as u8,
{
    reveal(bytes_of);
    is_ascii_chars_encode_utf8(s@);
}

/// Bytes that are ASCII stand for the characters with the same numbers.
pub proof fn law_ascii_text(bytes: Seq<u8>)
    requires
        forall|i: int| 0 <= i < bytes.len() ==> #[trigger] bytes[i] < 0x80,
    ensures
        text_of(bytes) == bytes.map_values(|byte: u8| byte as char),
{
    let chars = bytes.map_values(|byte: u8| byte as char);
    assert(is_ascii_chars(chars));
    is_ascii_chars_encode_utf8(chars);
    assert(encode_utf8(chars) =~= bytes);
    encode_utf8_valid_utf8(chars);
    encode_utf8_decode_utf8(chars);
}

/// The text of bytes that are UTF-8 is written, in UTF-8, by those bytes and no others. The text of
/// all others is the lossy reading of them.
pub proof fn law_text_of_bytes(text: Seq<char>, bytes: Seq<u8>)
    requires
        is_text(text, bytes),
    ensures
        valid_utf8(bytes) ==> encode_utf8(text) == bytes,
        !valid_utf8(bytes) ==> text == lossy_text(bytes),
{
    if valid_utf8(bytes) {
        decode_utf8_encode_utf8(bytes);
    }
}

/// Calls `String::from_utf8_lossy`. Bytes that are UTF-8 come back as the text that they encode.
/// For all others the result is named: it depends on the bytes alone, and holds the replacement
/// character. Which of the bytes that character stands for is not stated.
#[verifier::external_body]
fn from_utf8_lossy(bytes: &[u8]) -> (text: String)
    ensures
        text@ == lossy_text(bytes@),
        valid_utf8(bytes@) ==> text@ == decode_utf8(bytes@),
        !valid_utf8(bytes@) ==> text@.contains('\u{fffd}'),
{
    String::from_utf8_lossy(bytes).into_owned()
}

/// The text that `bytes` stand for.
pub fn into_string(bytes: Vec<u8>) -> (text: String)
    ensures
        is_text(text@, bytes@),
{
    from_utf8_lossy(bytes.as_slice())
}

/// `slice::Iter::as_slice`: the items that the iterator has still to give, as a slice.
pub assume_specification<'a, T>[ Iter::<'a, T>::as_slice ](iter: &Iter<'a, T>) -> (slice: &'a [T])
    ensures
        slice@ == IteratorSpec::remaining(iter).unref(),
;

/// Makes `bytes` continue after the first `count` bytes of `data`.
pub fn advance<'a>(bytes: &mut Iter<'a, u8>, data: &'a [u8], count: usize)
    requires
        count <= data@.len(),
    ensures
        (*final(bytes)).remaining().unref() == data@.skip(count as int),
{
    broadcast use vstd::std_specs::slice::group_slice_axioms;

    let tail = vstd::slice::slice_subrange(data, count, data.len());
    *bytes = tail.iter();
    assert(tail@.as_ref().unref() == tail@);
}

} // verus!
