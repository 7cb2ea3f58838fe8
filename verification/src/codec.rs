//! The binary-to-text decoders and the validation of UTF-8, which are called here and
//! not verified.

use crate::lexical::{is_digit, DIGIT_0, LOWER_A, LOWER_F, UPPER_A, UPPER_F};
use vstd::prelude::*;
use vstd::utf8::*;

verus! {

/// Whether `b` is a base16 digit, in either case.
pub open spec fn is_base16_digit(b: u8) -> bool {
    is_digit(b) || UPPER_A <= b <= UPPER_F || LOWER_A <= b <= LOWER_F
}

/// The value of a base16 digit.
pub open spec fn base16_value(b: u8) -> int {
    if is_digit(b) {
        b - DIGIT_0
    } else if UPPER_A <= b <= UPPER_F {
        b - UPPER_A + 10
    } else {
        b - LOWER_A + 10
    }
}

/// What the text `text` is decoded to as base16: where it holds an even number of
/// base16 digits and nothing else, one byte for each two digits, the first of which
/// makes the upper half of the byte. Else `None`.
pub open spec fn base16_decoded(text: Seq<u8>) -> Option<Seq<u8>> {
    if text.len() % 2 == 0 && forall|k: int|
        0 <= k < text.len() ==> is_base16_digit(#[trigger] text[k]) {
        Some(
            Seq::new(
                text.len() / 2,
                |k: int| (base16_value(text[2 * k]) * 16 + base16_value(text[2 * k + 1])) as u8,
            ),
        )
    } else {
        None
    }
}

/// Calls `Encoding::decode` of `data_encoding::HEXLOWER_PERMISSIVE` on `text`. That
/// encoding has the symbols `0`-`9` and `a`-`f`, takes `A`-`F` for `a`-`f`, pads
/// nothing and ignores nothing: it decodes an even number of digits to one byte for
/// each two, and refuses every other text. `decode` panics on a text of more than
/// `usize::MAX / 8` bytes.
#[verifier::external_body]
pub(crate) fn decode_base16(text: &[u8]) -> (decoded: Option<Vec<u8>>)
    requires
        text@.len() <= usize::MAX / 8,
    ensures
        decoded matches Some(bytes) ==> base16_decoded(text@) == Some(bytes@),
        decoded is None ==> base16_decoded(text@) is None,
{
    data_encoding::HEXLOWER_PERMISSIVE.decode(text).ok()
}

/// What the text `text` is decoded to as padded base32, or `None`
/// where it is no such encoding of any bytes.
pub uninterp spec fn base32_decoded(text: Seq<u8>) -> Option<Seq<u8>>;

/// Calls `Encoding::decode` of `data_encoding::BASE32` on `text`. The outcome
/// depends on `text` alone; nothing more is claimed of it. `decode` panics on a text
/// of more than `usize::MAX / 8` bytes.
#[verifier::external_body]
pub(crate) fn decode_base32(text: &[u8]) -> (decoded: Option<Vec<u8>>)
    requires
        text@.len() <= usize::MAX / 8,
    ensures
        decoded matches Some(bytes) ==> base32_decoded(text@) == Some(bytes@),
        decoded is None ==> base32_decoded(text@) is None,
{
    data_encoding::BASE32.decode(text).ok()
}

/// What the text `text` is decoded to as padded base32 in the extended hexadecimal alphabet, or `None`
/// where it is no such encoding of any bytes.
pub uninterp spec fn base32hex_decoded(text: Seq<u8>) -> Option<Seq<u8>>;

/// Calls `Encoding::decode` of `data_encoding::BASE32HEX` on `text`. The outcome
/// depends on `text` alone; nothing more is claimed of it. `decode` panics on a text
/// of more than `usize::MAX / 8` bytes.
#[verifier::external_body]
pub(crate) fn decode_base32hex(text: &[u8]) -> (decoded: Option<Vec<u8>>)
    requires
        text@.len() <= usize::MAX / 8,
    ensures
        decoded matches Some(bytes) ==> base32hex_decoded(text@) == Some(bytes@),
        decoded is None ==> base32hex_decoded(text@) is None,
{
    data_encoding::BASE32HEX.decode(text).ok()
}

/// What the text `text` is decoded to as unpadded base64 in the URL-safe alphabet, or `None`
/// where it is no such encoding of any bytes.
pub uninterp spec fn base64url_decoded(text: Seq<u8>) -> Option<Seq<u8>>;

/// Calls `Encoding::decode` of `data_encoding::BASE64URL_NOPAD` on `text`. The outcome
/// depends on `text` alone; nothing more is claimed of it. `decode` panics on a text
/// of more than `usize::MAX / 8` bytes.
#[verifier::external_body]
pub(crate) fn decode_base64url(text: &[u8]) -> (decoded: Option<Vec<u8>>)
    requires
        text@.len() <= usize::MAX / 8,
    ensures
        decoded matches Some(bytes) ==> base64url_decoded(text@) == Some(bytes@),
        decoded is None ==> base64url_decoded(text@) is None,
{
    data_encoding::BASE64URL_NOPAD.decode(text).ok()
}

/// What the text `text` is decoded to as padded base64, or `None`
/// where it is no such encoding of any bytes.
pub uninterp spec fn base64_decoded(text: Seq<u8>) -> Option<Seq<u8>>;

/// Calls `Encoding::decode` of `data_encoding::BASE64` on `text`. The outcome
/// depends on `text` alone; nothing more is claimed of it. `decode` panics on a text
/// of more than `usize::MAX / 8` bytes.
#[verifier::external_body]
pub(crate) fn decode_base64(text: &[u8]) -> (decoded: Option<Vec<u8>>)
    requires
        text@.len() <= usize::MAX / 8,
    ensures
        decoded matches Some(bytes) ==> base64_decoded(text@) == Some(bytes@),
        decoded is None ==> base64_decoded(text@) is None,
{
    data_encoding::BASE64.decode(text).ok()
}

/// Calls `String::from_utf8`. It gives a string exactly where `bytes` are valid UTF-8,
/// and the characters of that string are the ones that `bytes` encode.
#[verifier::external_body]
pub(crate) fn string_from_utf8(bytes: Vec<u8>) -> (text: Option<String>)
    ensures
        text is Some <==> valid_utf8(bytes@),
        text matches Some(t) ==> t@ == decode_utf8(bytes@),
{
    String::from_utf8(bytes).ok()
}

/// Bytes below 128 are the UTF-8 encoding of characters of one byte each.
pub proof fn lemma_ascii_is_utf8(bytes: Seq<u8>)
    requires
        forall|k: int| 0 <= k < bytes.len() ==> #[trigger] bytes[k] < 0x80,
    ensures
        valid_utf8(bytes),
{
    assert(bytes.subrange(0, 0) =~= Seq::<u8>::empty());
    partial_valid_utf8_extend_ascii_block(bytes, 0, bytes.len() as int);
    assert(bytes.subrange(0, bytes.len() as int) =~= bytes);
}

} // verus!
