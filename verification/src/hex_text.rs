//! Hexadecimal text, as written and read by the `hex` crate.

use vstd::prelude::*;

verus! {

/// The lower-case hexadecimal digit for a value below sixteen.
pub open spec fn hex_digit(v: int) -> char {
    if v < 10 {
        (48 + v) as u8 as char
    } else {
        (87 + v) as u8 as char
    }
}

/// The value of a hexadecimal digit of either case, or `None` for any other
/// character.
pub open spec fn hex_value(c: char) -> Option<int> {
    let v = c as u32 as int;
    if 48 <= v <= 57 {
        Some(v - 48)
    } else if 97 <= v <= 102 {
        Some(v - 87)
    } else if 65 <= v <= 70 {
        Some(v - 55)
    } else {
        None
    }
}

/// Two lower-case digits for each byte, the high half first.
pub open spec fn hex_encoded(bytes: Seq<u8>) -> Seq<char> {
    Seq::new(
        2 * bytes.len(),
        |i: int|
            if i % 2 == 0 {
                hex_digit(bytes[i / 2] as int / 16)
            } else {
                hex_digit(bytes[i / 2] as int % 16)
            },
    )
}

/// Whether `text` is an even number of hexadecimal digits.
pub open spec fn is_hex_text(text: Seq<char>) -> bool {
    &&& text.len() % 2 == 0
    &&& forall|i: int| 0 <= i < text.len() ==> hex_value(#[trigger] text[i]) is Some
}

/// One byte for each pair of digits.
pub open spec fn hex_decoded(text: Seq<char>) -> Seq<u8> {
    Seq::new(
        text.len() / 2,
        |i: int| (hex_value(text[2 * i]).unwrap() * 16 + hex_value(text[2 * i + 1]).unwrap()) as u8,
    )
}

/// Hexadecimal text decodes to the bytes that it was encoded from.
pub proof fn lemma_hex_round_trip(bytes: Seq<u8>)
    ensures
        is_hex_text(hex_encoded(bytes)),
        hex_decoded(hex_encoded(bytes)) == bytes,
{
}

/// Calls `hex::encode`. Trusted: it writes each byte as two lower-case
/// hexadecimal digits, the high half first.
#[verifier::external_body]
pub(crate) fn encode_hex(bytes: &[u8]) -> (out: String)
    ensures
        out@ == hex_encoded(bytes@),
{
    hex::encode(bytes)
}

/// Calls `hex::decode`. Trusted: it accepts exactly the texts made of an even
/// number of hexadecimal digits, of either case, and gives one byte for each
/// pair, the first digit being the high half.
#[verifier::external_body]
pub(crate) fn decode_hex(text: &str) -> (out: Option<Vec<u8>>)
    ensures
        out is Some <==> is_hex_text(text@),
        out matches Some(bytes) ==> bytes@ == hex_decoded(text@),
{
    hex::decode(text).ok()
}

} // verus!
