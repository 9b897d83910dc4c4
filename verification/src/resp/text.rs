//! Text on the wire: payload bytes become `String`s by lossy UTF-8 decoding.

use vstd::prelude::*;
use vstd::utf8::*;

verus! {

/// What lossy decoding makes of bytes that are not well-formed UTF-8: the
/// text in which each malformed sequence has become one replacement
/// character.
pub uninterp spec fn utf8_replaced(bytes: Seq<u8>) -> Seq<char>;

/// The text that a payload stands for: the text it encodes where it is
/// well-formed UTF-8, and the repaired text where it is not.
pub open spec fn lossy_text(bytes: Seq<u8>) -> Seq<char> {
    if valid_utf8(bytes) {
        decode_utf8(bytes)
    } else {
        utf8_replaced(bytes)
    }
}

/// `String::from_utf8_lossy`, made an owned `String`.
///
/// The result is a function of the bytes alone. Well-formed UTF-8 comes
/// back as the text that it encodes, unchanged; of other input only the
/// name of the result is known.
#[verifier::external_body]
pub(crate) fn string_from_utf8_lossy(bytes: &[u8]) -> (text: String)
    ensures
        text@ == lossy_text(bytes@),
        !valid_utf8(bytes@) ==> text@ == utf8_replaced(bytes@),
{
    String::from_utf8_lossy(bytes).into_owned()
}

/// Lossy decoding gives back any text from its own UTF-8 bytes.
pub proof fn lemma_lossy_text_of_encoded(text: Seq<char>)
    ensures
        lossy_text(encode_utf8(text)) == text,
{
    encode_utf8_valid_utf8(text);
    encode_utf8_decode_utf8(text);
}

} // verus!
