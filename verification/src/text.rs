//! Names as text, for display.

use vstd::prelude::*;
use vstd::utf8::{decode_utf8, valid_utf8};

verus! {

/// The text that `bytes` are shown as: what they spell in UTF-8, with the
/// replacement character in place of each part that is not UTF-8.
pub uninterp spec fn utf8_lossy(bytes: Seq<u8>) -> Seq<char>;

/// Calls `String::from_utf8_lossy` of std and takes the text it gives as a
/// `String`. Trusted: the text depends on `bytes` alone, and for bytes that
/// are UTF-8 it is the text that they spell.
#[verifier::external_body]
pub(crate) fn lossy_text(bytes: &[u8]) -> (out: String)
    ensures
        out@ == utf8_lossy(bytes@),
        valid_utf8(bytes@) ==> out@ == decode_utf8(bytes@),
{
    String::from_utf8_lossy(bytes).into_owned()
}

} // verus!
