//! Bytes as text: base64, and text that may be damaged.

use base64::Engine;
use vstd::prelude::*;
use vstd::utf8::{decode_utf8, valid_utf8};

verus! {

// ---------------------------------------------------------------------------
// Base64
// ---------------------------------------------------------------------------

/// A character of the base64 alphabet.
pub open spec fn base64_char(i: int) -> char {
    if i < 26 {
        (65 + i) as char
    } else if i < 52 {
        (71 + i) as char
    } else if i < 62 {
        (i - 4) as char
    } else if i == 62 {
        '+'
    } else {
        '/'
    }
}

/// Bytes in base64: four characters for each three bytes, padded at the end.
pub open spec fn base64_text(bytes: Seq<u8>) -> Seq<char>
    decreases bytes.len(),
{
    let a = bytes[0] as int;
    let b = bytes[1] as int;
    let c = bytes[2] as int;
    if bytes.len() == 0 {
        seq![]
    } else if bytes.len() == 1 {
        seq![base64_char(a / 4), base64_char(a % 4 * 16), '=', '=']
    } else if bytes.len() == 2 {
        seq![
            base64_char(a / 4),
            base64_char(a % 4 * 16 + b / 16),
            base64_char(b % 16 * 4),
            '=',
        ]
    } else {
        seq![
            base64_char(a / 4),
            base64_char(a % 4 * 16 + b / 16),
            base64_char(b % 16 * 4 + c / 64),
            base64_char(c % 64),
        ] + base64_text(bytes.skip(3))
    }
}

/// `base64::Engine::encode` of `base64::engine::general_purpose::STANDARD`: the
/// standard alphabet, with padding. It panics where no string can hold the text,
/// which is longer than the bytes by a third.
#[verifier::external_body]
pub(crate) fn to_base64(bytes: &[u8]) -> (r: String)
    requires
        bytes@.len() <= isize::MAX / 4 * 3,
    ensures
        r@ == base64_text(bytes@),
{
    base64::engine::general_purpose::STANDARD.encode(bytes)
}

// ---------------------------------------------------------------------------
// Text that may be damaged
// ---------------------------------------------------------------------------

/// The text of bytes that may not be UTF-8.
pub uninterp spec fn lossy_text(bytes: Seq<u8>) -> Seq<char>;

/// `String::from_utf8_lossy`: the text that the bytes encode, with the
/// replacement character in place of what is not UTF-8. Which sequences it
/// replaces is left unsaid.
#[verifier::external_body]
pub(crate) fn to_lossy_text(bytes: &[u8]) -> (r: String)
    ensures
        r@ == lossy_text(bytes@),
        valid_utf8(bytes@) ==> r@ == decode_utf8(bytes@),
{
    String::from_utf8_lossy(bytes).to_string()
}

} // verus!
