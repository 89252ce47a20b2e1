//! Turning the bytes of a segment into text.

use vstd::prelude::*;

verus! {

/// The text that lossy UTF-8 decoding makes of `bytes`: the text that the
/// bytes encode where they are valid UTF-8, and else that text with U+FFFD
/// in place of each part that is not.
pub uninterp spec fn utf8_lossy(bytes: Seq<u8>) -> Seq<char>;

/// Decodes `bytes` with `String::from_utf8_lossy`. The contract only names
/// the result: it is taken on trust that the decoding depends on the bytes
/// alone.
#[verifier::external_body]
pub(crate) fn decode_lossy(bytes: &Vec<u8>) -> (text: String)
    ensures
        text@ == utf8_lossy(bytes@),
{
    String::from_utf8_lossy(bytes).into_owned()
}

} // verus!
