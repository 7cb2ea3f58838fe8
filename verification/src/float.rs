//! Float literals. The value is kept as it was written: this library computes
//! nothing with it.

use crate::codec::{lemma_ascii_is_utf8, string_from_utf8};
use crate::item::{DataItem, FloatValue, FloatWidth, Item, Real};
use crate::lexical::{
    byte_at, has_byte, is_digit, lemma_run_end, lemma_tag_begins, run_end, scan, spec_tag, tag,
    Class, DOT, LOWER_E, MINUS, PLUS, UNDERSCORE, UPPER_E, UPPER_I, UPPER_N,
};
use crate::number::{encoding, spec_encoding};
use vstd::prelude::*;
use vstd::slice::{slice_subrange, slice_to_vec};
use vstd::string::*;
use vstd::utf8::*;

verus! {

/// The position behind a sign at `i`, or `i` where none stands there.
pub open spec fn after_sign(s: Seq<u8>, i: int) -> int {
    if has_byte(s, i, PLUS) || has_byte(s, i, MINUS) {
        i + 1
    } else {
        i
    }
}

/// The position behind an exponent at `i`: `e` or `E`, an optional sign and one or
/// more digits. Where no whole exponent stands there, `i`.
pub open spec fn after_exponent(s: Seq<u8>, i: int) -> int {
    if has_byte(s, i, LOWER_E) || has_byte(s, i, UPPER_E) {
        let digits = after_sign(s, i + 1);
        let end = run_end(s, digits, Class::Digit);
        if digits < end {
            end
        } else {
            i
        }
    } else {
        i
    }
}

/// Where the decimal literal at `i` ends: an optional sign, digits, `.`, digits and
/// an optional exponent.
pub open spec fn spec_recognize_float(s: Seq<u8>, i: int) -> Option<int> {
    let whole = after_sign(s, i);
    let dot = run_end(s, whole, Class::Digit);
    let fraction = dot + 1;
    let end = run_end(s, fraction, Class::Digit);
    if whole < dot && has_byte(s, dot, DOT) && fraction < end {
        Some(after_exponent(s, end))
    } else {
        None
    }
}

/// The value of the float at `i`: a decimal literal, of which the characters are
/// kept, or one of the words `Infinity`, `-Infinity` and `NaN`.
pub open spec fn spec_float_value(s: Seq<u8>, i: int) -> Option<(Real, int)> {
    if let Some(end) = spec_recognize_float(s, i) {
        Some((Real::Decimal(decode_utf8(s.subrange(i, end))), end))
    } else if let Some(end) = spec_tag(s, i, "Infinity".spec_bytes()) {
        Some((Real::Infinity, end))
    } else if let Some(end) = spec_tag(s, i, "-Infinity".spec_bytes()) {
        Some((Real::NegInfinity, end))
    } else if let Some(end) = spec_tag(s, i, "NaN".spec_bytes()) {
        Some((Real::NaN, end))
    } else {
        None
    }
}

/// The width that a float's suffix names; there is none of 8 bits.
pub open spec fn float_width_of(e: u64) -> FloatWidth {
    if e == 1 {
        FloatWidth::Sixteen
    } else if e == 2 {
        FloatWidth::ThirtyTwo
    } else {
        FloatWidth::SixtyFour
    }
}

/// A float at `i`: a value, then a width suffix other than `_0` where one follows;
/// without one the width is `Unknown`.
#[verifier::opaque]
pub open spec fn spec_float(s: Seq<u8>, i: int) -> Option<(Item, int)> {
    match spec_float_value(s, i) {
        Some((value, j)) => match spec_encoding(s, j) {
            Some((e, k)) => if e > 0 {
                Some((Item::Float { value, bitwidth: float_width_of(e) }, k))
            } else {
                Some((Item::Float { value, bitwidth: FloatWidth::Unknown }, j))
            },
            None => Some((Item::Float { value, bitwidth: FloatWidth::Unknown }, j)),
        },
        None => None,
    }
}

/// A decimal literal lies inside the input and holds bytes below 128 only.
pub proof fn lemma_recognize_float(s: Seq<u8>, i: int)
    requires
        0 <= i <= s.len(),
        spec_recognize_float(s, i) is Some,
    ensures
        i < spec_recognize_float(s, i)->0 <= s.len(),
        forall|k: int| i <= k < spec_recognize_float(s, i)->0 ==> #[trigger] s[k] < 0x80,
{
    let whole = after_sign(s, i);
    let dot = run_end(s, whole, Class::Digit);
    let end = run_end(s, dot + 1, Class::Digit);
    lemma_run_end(s, whole, Class::Digit);
    lemma_run_end(s, dot + 1, Class::Digit);
    if has_byte(s, end, LOWER_E) || has_byte(s, end, UPPER_E) {
        lemma_run_end(s, after_sign(s, end + 1), Class::Digit);
    }
}

fn sign(input: &[u8], pos: usize) -> (end: usize)
    requires
        pos <= input.len(),
    ensures
        end == after_sign(input@, pos as int),
        pos <= end <= input.len(),
{
    if byte_at(input, pos, PLUS) || byte_at(input, pos, MINUS) {
        pos + 1
    } else {
        pos
    }
}

/// Finds where the decimal literal at `pos` ends.
pub fn recognize_float(input: &[u8], pos: usize) -> (r: Option<usize>)
    requires
        pos <= input.len(),
    ensures
        r matches Some(end) ==> spec_recognize_float(input@, pos as int) == Some(end as int)
            && pos < end <= input.len(),
        r is None ==> spec_recognize_float(input@, pos as int) is None,
{
    let whole = sign(input, pos);
    let dot = scan(input, whole, Class::Digit);
    if dot == whole || !byte_at(input, dot, DOT) {
        return None;
    }
    let fraction = dot + 1;
    let end = scan(input, fraction, Class::Digit);
    if end == fraction {
        return None;
    }
    if byte_at(input, end, LOWER_E) || byte_at(input, end, UPPER_E) {
        let digits = sign(input, end + 1);
        let exponent_end = scan(input, digits, Class::Digit);
        if digits < exponent_end {
            return Some(exponent_end);
        }
    }
    Some(end)
}

/// Reads the value of a float.
pub fn float_value(input: &[u8], pos: usize) -> (r: Option<(FloatValue, usize)>)
    requires
        pos <= input.len(),
    ensures
        r matches Some((value, end)) ==> spec_float_value(input@, pos as int) == Some(
            (value@, end as int),
        ) && pos < end <= input.len(),
        r is None ==> spec_float_value(input@, pos as int) is None,
{
    if let Some(end) = recognize_float(input, pos) {
        let written = slice_to_vec(slice_subrange(input, pos, end));
        proof {
            lemma_recognize_float(input@, pos as int);
            lemma_ascii_is_utf8(written@);
        }
        match string_from_utf8(written) {
            Some(text) => Some((FloatValue::Decimal(text), end)),
            None => None,
        }
    } else if let Some(end) = tag(input, pos, "Infinity") {
        proof {
            reveal_strlit("Infinity");
            is_ascii_chars_encode_utf8("Infinity"@);
        }
        Some((FloatValue::Infinity, end))
    } else if let Some(end) = tag(input, pos, "-Infinity") {
        proof {
            reveal_strlit("-Infinity");
            is_ascii_chars_encode_utf8("-Infinity"@);
        }
        Some((FloatValue::NegInfinity, end))
    } else if let Some(end) = tag(input, pos, "NaN") {
        proof {
            reveal_strlit("NaN");
            is_ascii_chars_encode_utf8("NaN"@);
        }
        Some((FloatValue::NaN, end))
    } else {
        None
    }
}

/// Reads a float with its width.
pub fn float(input: &[u8], pos: usize) -> (r: Option<(DataItem, usize)>)
    requires
        pos <= input.len(),
    ensures
        r matches Some((item, end)) ==> spec_float(input@, pos as int) == Some((item@, end as int))
            && pos < end <= input.len(),
        r is None ==> spec_float(input@, pos as int) is None,
{
    reveal(spec_float);
    let (value, after) = match float_value(input, pos) {
        Some(found) => found,
        None => {
            return None;
        },
    };
    match encoding(input, after) {
        Some((e, end)) => {
            if e == 0 {
                Some((DataItem::Float { value, bitwidth: FloatWidth::Unknown }, after))
            } else {
                let bitwidth = if e == 1 {
                    FloatWidth::Sixteen
                } else if e == 2 {
                    FloatWidth::ThirtyTwo
                } else {
                    FloatWidth::SixtyFour
                };
                Some((DataItem::Float { value, bitwidth }, end))
            }
        },
        None => Some((DataItem::Float { value, bitwidth: FloatWidth::Unknown }, after)),
    }
}

/// A float begins with a digit, a sign, or the first letter of `Infinity` or `NaN`.
pub proof fn lemma_float_begins(s: Seq<u8>, i: int)
    requires
        0 <= i <= s.len(),
        spec_float(s, i) is Some,
    ensures
        i < s.len(),
        is_digit(s[i]) || s[i] == PLUS || s[i] == MINUS || s[i] == UPPER_I || s[i] == UPPER_N,
{
    reveal(spec_float);
    reveal_strlit("Infinity");
    reveal_strlit("-Infinity");
    reveal_strlit("NaN");
    is_ascii_chars_encode_utf8("Infinity"@);
    is_ascii_chars_encode_utf8("-Infinity"@);
    is_ascii_chars_encode_utf8("NaN"@);
    if spec_recognize_float(s, i) is Some {
        lemma_run_end(s, after_sign(s, i), Class::Digit);
    } else if spec_tag(s, i, "Infinity".spec_bytes()) is Some {
        lemma_tag_begins(s, i, "Infinity".spec_bytes());
    } else if spec_tag(s, i, "-Infinity".spec_bytes()) is Some {
        lemma_tag_begins(s, i, "-Infinity".spec_bytes());
    } else {
        lemma_tag_begins(s, i, "NaN".spec_bytes());
    }
}

/// A float is not empty and ends inside the input.
pub proof fn lemma_float_ends(s: Seq<u8>, i: int)
    requires
        0 <= i <= s.len(),
        spec_float(s, i) is Some,
    ensures
        i < (spec_float(s, i)->0).1 <= s.len(),
{
    reveal(spec_float);
    reveal_strlit("Infinity");
    reveal_strlit("-Infinity");
    reveal_strlit("NaN");
    is_ascii_chars_encode_utf8("Infinity"@);
    is_ascii_chars_encode_utf8("-Infinity"@);
    is_ascii_chars_encode_utf8("NaN"@);
    if spec_recognize_float(s, i) is Some {
        lemma_recognize_float(s, i);
    }
    let end = (spec_float_value(s, i)->0).1;
    if has_byte(s, end, UNDERSCORE) {
        lemma_run_end(s, end + 1, Class::Digit);
    }
}

} // verus!
