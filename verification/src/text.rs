//! Lossy decoding of text values.
//!
//! Text in the file is meant to be UTF-8 but nothing enforces it. Decoding
//! never fails: a byte sequence that is not UTF-8 is replaced by U+FFFD.

use vstd::prelude::*;
use vstd::utf8::{
    decode_utf8, encode_utf8, encode_utf8_decode_utf8, encode_utf8_valid_utf8, is_ascii_chars,
    is_ascii_chars_encode_utf8, valid_utf8,
};

verus! {

/// The text that lossy UTF-8 decoding makes of `bytes`.
pub uninterp spec fn utf8_lossy(bytes: Seq<u8>) -> Seq<char>;

/// The text that decoding makes of `bytes`: the text they encode where they
/// are valid UTF-8, and otherwise whatever lossy decoding substitutes.
pub open spec fn decoded_text(bytes: Seq<u8>) -> Seq<char> {
    if valid_utf8(bytes) {
        decode_utf8(bytes)
    } else {
        utf8_lossy(bytes)
    }
}

/// Decodes `bytes` with `String::from_utf8_lossy`.
///
/// Trusted: the result depends on the bytes alone, and bytes that are valid
/// UTF-8 decode to the text they encode. What invalid bytes turn into is left
/// to the standard library.
#[verifier::external_body]
pub(crate) fn decode_lossy(bytes: &[u8]) -> (text: String)
    ensures
        text@ == utf8_lossy(bytes@),
        valid_utf8(bytes@) ==> text@ == decode_utf8(bytes@),
{
    String::from_utf8_lossy(bytes).into_owned()
}

/// The characters whose code points are the given bytes.
pub open spec fn ascii_text(bytes: Seq<u8>) -> Seq<char> {
    Seq::new(bytes.len(), |i: int| bytes[i] as char)
}

/// Every byte is an ASCII character.
pub open spec fn is_ascii_bytes(bytes: Seq<u8>) -> bool {
    forall|i: int| 0 <= i < bytes.len() ==> #[trigger] bytes[i] < 0x80
}

/// ASCII text is decoded verbatim, byte for character, quotes and all.
pub proof fn lemma_ascii_is_decoded_verbatim(bytes: Seq<u8>)
    requires
        is_ascii_bytes(bytes),
    ensures
        valid_utf8(bytes),
        decoded_text(bytes) == ascii_text(bytes),
{
    let chars = ascii_text(bytes);
    is_ascii_chars_encode_utf8(chars);
    assert(encode_utf8(chars) =~= bytes);
    encode_utf8_valid_utf8(chars);
    encode_utf8_decode_utf8(chars);
}

/// Text that was written as UTF-8 is read back unchanged.
pub proof fn lemma_encoded_text_is_decoded_back(text: Seq<char>)
    ensures
        decoded_text(encode_utf8(text)) == text,
{
    encode_utf8_valid_utf8(text);
    encode_utf8_decode_utf8(text);
}

} // verus!
