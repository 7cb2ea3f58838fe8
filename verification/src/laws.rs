//! What holds of every text of a given shape.

use crate::bytes::{
    is_plain, lemma_bytestring_begins, lemma_no_literal_at_the_end, lemma_plain_body,
    lemma_plain_literal, lemma_quoted_body, lemma_sole_literal, quoted, spec_bytestring,
    spec_concatenated_definite_bytestring, spec_definite_bytestring, spec_literal,
    spec_more_bytestrings,
};
use crate::codec::{
    base16_decoded, base32_decoded, base32hex_decoded, base64_decoded, base64url_decoded,
};
use crate::float::{float_width_of, lemma_float_begins, spec_float, spec_float_value};
use crate::grammar::{
    lemma_alternatives, lemma_array_begins, lemma_data_item_ends, lemma_data_map_begins,
    lemma_tagged_begins,
    spec_alternatives, spec_array, spec_data_item, spec_data_map, spec_definite_array,
    spec_definite_map, spec_tagged,
};
use crate::item::{Bytes, FloatWidth, IntegerWidth, Item, Real, Text};
use crate::lexical::{
    all_of, has_byte, is_digit, lemma_run_covers, lemma_run_end, lemma_tag_begins,
    lemma_without_layout, or_else, run_end, spec_tag, without_layout, Class, CLOSE_PAREN, DOT,
    DOUBLE_QUOTE, LOWER_B, LOWER_H, LOWER_S, MINUS, QUOTE, SPACE, UNDERSCORE,
};
use crate::number::{
    decimal, lemma_integer_begins, shortest, spec_integer, spec_negative, spec_positive, width_of,
};
use crate::parse::{spec_parse_diag, ErrorKind, Fault, Label};
use crate::simple::{lemma_simple_begins, lemma_simple_behind_s, spec_simple};
use crate::text::{
    lemma_textstring_begins, spec_concatenated_definite_textstring, spec_definite_textstring,
    spec_more_pieces, spec_textstring,
};
use vstd::prelude::*;
use vstd::string::*;
use vstd::utf8::*;

verus! {

/// Whether `s` holds decimal digits only.
pub open spec fn all_digits(s: Seq<u8>) -> bool {
    forall|k: int| 0 <= k < s.len() ==> is_digit(#[trigger] s[k])
}

/// A float that begins with a digit has a `.` behind its first run of digits.
proof fn lemma_float_behind_digit(s: Seq<u8>, i: int)
    requires
        0 <= i < s.len(),
        is_digit(s[i]),
        spec_float(s, i) is Some,
    ensures
        has_byte(s, run_end(s, i, Class::Digit), DOT),
{
    reveal(spec_float);
    reveal_strlit("Infinity");
    reveal_strlit("-Infinity");
    reveal_strlit("NaN");
    is_ascii_chars_encode_utf8("Infinity"@);
    is_ascii_chars_encode_utf8("-Infinity"@);
    is_ascii_chars_encode_utf8("NaN"@);
    if spec_tag(s, i, "Infinity".spec_bytes()) is Some {
        lemma_tag_begins(s, i, "Infinity".spec_bytes());
    }
    if spec_tag(s, i, "-Infinity".spec_bytes()) is Some {
        lemma_tag_begins(s, i, "-Infinity".spec_bytes());
    }
    if spec_tag(s, i, "NaN".spec_bytes()) is Some {
        lemma_tag_begins(s, i, "NaN".spec_bytes());
    }
}

/// A text of decimal digits alone, whose number fits in 64 bits, denotes that
/// number. Its width is `Zero` up to 23 and `Unknown` from 24 on.
pub proof fn law_integer_without_suffix(s: Seq<u8>)
    requires
        s.len() > 0,
        all_digits(s),
        decimal(s) <= u64::MAX,
    ensures
        spec_parse_diag(s) == Ok::<Item, Fault>(
            Item::Integer {
                value: decimal(s) as u64,
                bitwidth: if decimal(s) <= 23 {
                    IntegerWidth::Zero
                } else {
                    IntegerWidth::Unknown
                },
            },
        ),
{
    let n = s.len() as int;
    lemma_run_covers(s, 0, 0, Class::Layout);
    lemma_run_covers(s, 0, n, Class::Digit);
    lemma_run_covers(s, n, n, Class::Layout);
    assert(s.subrange(0, n) == s);
    if spec_float(s, 0) is Some {
        lemma_float_behind_digit(s, 0);
    }
    reveal(spec_positive);
    lemma_alternatives(s, 0);
}

/// A float that begins with `-` and a digit has a `.` behind its first run of digits.
proof fn lemma_float_behind_minus(s: Seq<u8>)
    requires
        s.len() > 1,
        s[0] == MINUS,
        is_digit(s[1]),
        spec_float(s, 0) is Some,
    ensures
        has_byte(s, run_end(s, 1, Class::Digit), DOT),
{
    reveal(spec_float);
    reveal_strlit("Infinity");
    reveal_strlit("-Infinity");
    reveal_strlit("NaN");
    is_ascii_chars_encode_utf8("Infinity"@);
    is_ascii_chars_encode_utf8("-Infinity"@);
    is_ascii_chars_encode_utf8("NaN"@);
    if spec_tag(s, 0, "Infinity".spec_bytes()) is Some {
        lemma_tag_begins(s, 0, "Infinity".spec_bytes());
    }
    if spec_tag(s, 0, "-Infinity".spec_bytes()) is Some {
        assert(s.subrange(0, 9)[1] == "-Infinity".spec_bytes()[1]);
    }
    if spec_tag(s, 0, "NaN".spec_bytes()) is Some {
        lemma_tag_begins(s, 0, "NaN".spec_bytes());
    }
}

/// No form but the float and the negative integer begins with `-`.
proof fn lemma_behind_minus(s: Seq<u8>)
    requires
        s.len() > 0,
        s[0] == MINUS,
    ensures
        spec_alternatives(s, 0) == if spec_float(s, 0) is Some {
            spec_float(s, 0)
        } else {
            spec_negative(s, 0)
        },
{
    lemma_run_covers(s, 0, 0, Class::Layout);
    lemma_alternatives(s, 0);
    if spec_tagged(s, 0) is Some {
        lemma_tagged_begins(s, 0);
    }
    if spec_positive(s, 0) is Some {
        reveal(spec_positive);
        lemma_integer_begins(s, 0);
    }
    if spec_bytestring(s, 0) is Some {
        lemma_bytestring_begins(s, 0);
    }
    if spec_textstring(s, 0) is Some {
        lemma_textstring_begins(s, 0);
    }
    if spec_array(s, 0) is Some {
        lemma_array_begins(s, 0);
    }
    if spec_data_map(s, 0) is Some {
        lemma_data_map_begins(s, 0);
    }
    if spec_simple(s, 0) is Some {
        lemma_simple_begins(s, 0);
    }
    if spec_negative(s, 0) is None {
        reveal(spec_negative);
    }
}

/// A text of `-` and decimal digits, whose number is not zero and fits in 64 bits,
/// denotes the negative of that number, kept as one less. Its width is `Zero` up
/// to 24 and `Unknown` from 25 on.
pub proof fn law_negative_without_suffix(digits: Seq<u8>)
    requires
        digits.len() > 0,
        all_digits(digits),
        0 < decimal(digits) <= u64::MAX,
    ensures
        spec_parse_diag(seq![MINUS] + digits) == Ok::<Item, Fault>(
            Item::Negative {
                value: (decimal(digits) - 1) as u64,
                bitwidth: if decimal(digits) <= 24 {
                    IntegerWidth::Zero
                } else {
                    IntegerWidth::Unknown
                },
            },
        ),
{
    let s = seq![MINUS] + digits;
    let n = s.len() as int;
    assert forall|k: int| 1 <= k < n implies is_digit(#[trigger] s[k]) by {
        assert(s[k] == digits[k - 1]);
    }
    lemma_run_covers(s, 0, 0, Class::Layout);
    lemma_run_covers(s, 1, n, Class::Digit);
    lemma_run_covers(s, n, n, Class::Layout);
    assert(s.subrange(1, n) == digits);
    if spec_float(s, 0) is Some {
        lemma_float_behind_minus(s);
    }
    lemma_behind_minus(s);
    reveal(spec_negative);
}

/// A text that begins with `-` and decimal digits whose number is zero, and that
/// goes on with neither a digit nor `.`, denotes nothing: there is no negative zero.
pub proof fn law_negative_zero(digits: Seq<u8>, rest: Seq<u8>)
    requires
        digits.len() > 0,
        all_digits(digits),
        decimal(digits) == 0,
        rest.len() > 0 ==> !is_digit(rest[0]) && rest[0] != DOT,
    ensures
        spec_parse_diag(seq![MINUS] + digits + rest) == Err::<Item, Fault>(
            Fault {
                kind: ErrorKind::Syntax,
                offset: 0,
                path: seq![Label::DataItem, Label::Simple],
            },
        ),
{
    let s = seq![MINUS] + digits + rest;
    let n = 1 + digits.len() as int;
    assert forall|k: int| 1 <= k < n implies is_digit(#[trigger] s[k]) by {
        assert(s[k] == digits[k - 1]);
    }
    assert(n < s.len() ==> s[n] == rest[0]);
    lemma_run_covers(s, 0, 0, Class::Layout);
    lemma_run_covers(s, 1, n, Class::Digit);
    assert(s.subrange(1, n) == digits);
    if spec_float(s, 0) is Some {
        lemma_float_behind_minus(s);
    }
    lemma_behind_minus(s);
    reveal(spec_negative);
}

/// A text of decimal digits, `_` and decimal digits, where the first number fits
/// in 64 bits and the second is below 4, denotes the first number with the width
/// that the second names, however small or large the number is.
pub proof fn law_integer_with_suffix(digits: Seq<u8>, suffix: Seq<u8>)
    requires
        digits.len() > 0,
        suffix.len() > 0,
        all_digits(digits),
        all_digits(suffix),
        decimal(digits) <= u64::MAX,
        decimal(suffix) < 4,
    ensures
        spec_parse_diag(digits + seq![UNDERSCORE] + suffix) == Ok::<Item, Fault>(
            Item::Integer {
                value: decimal(digits) as u64,
                bitwidth: width_of(decimal(suffix) as u64),
            },
        ),
{
    let s = digits + seq![UNDERSCORE] + suffix;
    let m = digits.len() as int;
    let n = s.len() as int;
    assert forall|k: int| 0 <= k < m implies is_digit(#[trigger] s[k]) by {
        assert(s[k] == digits[k]);
    }
    assert forall|k: int| m + 1 <= k < n implies is_digit(#[trigger] s[k]) by {
        assert(s[k] == suffix[k - m - 1]);
    }
    assert(s[m] == UNDERSCORE);
    lemma_run_covers(s, 0, 0, Class::Layout);
    lemma_run_covers(s, 0, m, Class::Digit);
    lemma_run_covers(s, m + 1, n, Class::Digit);
    lemma_run_covers(s, n, n, Class::Layout);
    assert(s.subrange(0, m) == digits);
    assert(s.subrange(m + 1, n) == suffix);
    if spec_float(s, 0) is Some {
        lemma_float_behind_digit(s, 0);
    }
    reveal(spec_positive);
    lemma_alternatives(s, 0);
}

/// A text of decimal digits, `_` and decimal digits, where the first number fits
/// in 64 bits and the second is 4 or more, denotes nothing: the suffix is left
/// behind the number as trailing input.
pub proof fn law_suffix_out_of_range(digits: Seq<u8>, suffix: Seq<u8>)
    requires
        digits.len() > 0,
        suffix.len() > 0,
        all_digits(digits),
        all_digits(suffix),
        decimal(digits) <= u64::MAX,
        decimal(suffix) >= 4,
    ensures
        spec_parse_diag(digits + seq![UNDERSCORE] + suffix) == Err::<Item, Fault>(
            Fault {
                kind: ErrorKind::TrailingInput,
                offset: digits.len() as int,
                path: Seq::empty(),
            },
        ),
{
    let s = digits + seq![UNDERSCORE] + suffix;
    let m = digits.len() as int;
    let n = s.len() as int;
    assert forall|k: int| 0 <= k < m implies is_digit(#[trigger] s[k]) by {
        assert(s[k] == digits[k]);
    }
    assert forall|k: int| m + 1 <= k < n implies is_digit(#[trigger] s[k]) by {
        assert(s[k] == suffix[k - m - 1]);
    }
    assert(s[m] == UNDERSCORE);
    lemma_run_covers(s, 0, 0, Class::Layout);
    lemma_run_covers(s, 0, m, Class::Digit);
    lemma_run_covers(s, m + 1, n, Class::Digit);
    lemma_run_covers(s, m, m, Class::Layout);
    assert(s.subrange(0, m) == digits);
    assert(s.subrange(m + 1, n) == suffix);
    if spec_float(s, 0) is Some {
        lemma_float_behind_digit(s, 0);
    }
    reveal(spec_positive);
    lemma_alternatives(s, 0);
}

/// A float without a suffix, alone in the text, has the width `Unknown`.
pub proof fn law_float_without_suffix(s: Seq<u8>, value: Real)
    requires
        spec_float_value(s, 0) == Some((value, s.len() as int)),
    ensures
        spec_parse_diag(s) == Ok::<Item, Fault>(
            Item::Float { value, bitwidth: FloatWidth::Unknown },
        ),
{
    let n = s.len() as int;
    reveal(spec_float);
    lemma_float_begins(s, 0);
    lemma_run_covers(s, 0, 0, Class::Layout);
    lemma_run_covers(s, n, n, Class::Layout);
    lemma_alternatives(s, 0);
}

/// A float, `_` and decimal digits that make up the text: where the number of the
/// digits is 1, 2 or 3, the text denotes the float with the width `Sixteen`,
/// `ThirtyTwo` or `SixtyFour`. Where it is 0, or 4 or more, the text denotes
/// nothing, and the suffix is left behind the float as trailing input.
pub proof fn law_float_with_suffix(s: Seq<u8>, value: Real, end: int)
    requires
        spec_float_value(s, 0) == Some((value, end)),
        0 < end < s.len() - 1,
        s[end] == UNDERSCORE,
        all_digits(s.subrange(end + 1, s.len() as int)),
    ensures
        ({
            let e = decimal(s.subrange(end + 1, s.len() as int));
            spec_parse_diag(s) == if 1 <= e <= 3 {
                Ok::<Item, Fault>(Item::Float { value, bitwidth: float_width_of(e as u64) })
            } else {
                Err::<Item, Fault>(
                    Fault { kind: ErrorKind::TrailingInput, offset: end, path: Seq::empty() },
                )
            }
        }),
{
    let n = s.len() as int;
    let suffix = s.subrange(end + 1, n);
    assert forall|k: int| end + 1 <= k < n implies is_digit(#[trigger] s[k]) by {
        assert(s[k] == suffix[k - end - 1]);
    }
    reveal(spec_float);
    lemma_float_begins(s, 0);
    lemma_run_covers(s, 0, 0, Class::Layout);
    lemma_run_covers(s, end + 1, n, Class::Digit);
    lemma_run_covers(s, end, end, Class::Layout);
    lemma_run_covers(s, n, n, Class::Layout);
    lemma_alternatives(s, 0);
}

/// No form but the simple value begins with `s`.
proof fn lemma_behind_s(s: Seq<u8>)
    requires
        has_byte(s, 0, LOWER_S),
    ensures
        spec_alternatives(s, 0) == spec_simple(s, 0),
{
    lemma_run_covers(s, 0, 0, Class::Layout);
    lemma_alternatives(s, 0);
    if spec_float(s, 0) is Some {
        lemma_float_begins(s, 0);
    }
    if spec_tagged(s, 0) is Some {
        lemma_tagged_begins(s, 0);
    }
    if spec_positive(s, 0) is Some {
        reveal(spec_positive);
        lemma_integer_begins(s, 0);
    }
    if spec_negative(s, 0) is Some {
        reveal(spec_negative);
    }
    if spec_bytestring(s, 0) is Some {
        lemma_bytestring_begins(s, 0);
    }
    if spec_textstring(s, 0) is Some {
        lemma_textstring_begins(s, 0);
    }
    if spec_array(s, 0) is Some {
        lemma_array_begins(s, 0);
    }
    if spec_data_map(s, 0) is Some {
        lemma_data_map_begins(s, 0);
    }
}

/// The text `simple(`, decimal digits, `)` denotes the simple value of the number of
/// the digits where that is at most 255, and nothing where it is more.
pub proof fn law_simple_numbered(digits: Seq<u8>)
    requires
        digits.len() > 0,
        all_digits(digits),
    ensures
        spec_parse_diag("simple(".spec_bytes() + digits + seq![CLOSE_PAREN]) == if decimal(digits)
            <= 255 {
            Ok::<Item, Fault>(Item::Simple(decimal(digits) as u8))
        } else {
            Err::<Item, Fault>(
                Fault {
                    kind: ErrorKind::Syntax,
                    offset: 0,
                    path: seq![Label::DataItem, Label::Simple],
                },
            )
        },
{
    reveal_strlit("simple(");
    reveal_strlit("simple");
    is_ascii_chars_encode_utf8("simple("@);
    is_ascii_chars_encode_utf8("simple"@);
    let word = "simple(".spec_bytes();
    let s = word + digits + seq![CLOSE_PAREN];
    let n = s.len() as int;
    assert forall|k: int| 7 <= k < n - 1 implies is_digit(#[trigger] s[k]) by {
        assert(s[k] == digits[k - 7]);
    }
    assert(s[n - 1] == CLOSE_PAREN);
    assert forall|k: int| 0 <= k < 7 implies s[k] == word[k] by {}
    assert(s.subrange(0, 6) == "simple".spec_bytes());
    assert(s.subrange(7, n - 1) == digits);
    lemma_run_covers(s, 0, 0, Class::Layout);
    lemma_run_covers(s, 7, n - 1, Class::Digit);
    lemma_run_covers(s, n, n, Class::Layout);
    lemma_behind_s(s);
    lemma_simple_behind_s(s, 0);
}

/// A text denotes a data item exactly where one is matched at its beginning and
/// ends at its end. Text that is left behind a data item is a fault of its own kind,
/// at the first byte that is left.
pub proof fn law_whole_input(s: Seq<u8>)
    ensures
        spec_parse_diag(s) is Ok <==> spec_data_item(s, 0) is Some && (spec_data_item(s, 0)->0).1
            == s.len(),
        spec_data_item(s, 0) is Some && (spec_data_item(s, 0)->0).1 != s.len() ==> spec_parse_diag(
            s,
        ) == Err::<Item, Fault>(
            Fault {
                kind: ErrorKind::TrailingInput,
                offset: (spec_data_item(s, 0)->0).1,
                path: Seq::empty(),
            },
        ),
        spec_data_item(s, 0) is None <==> spec_parse_diag(s) is Err && spec_parse_diag(
            s,
        )->Err_0.kind == ErrorKind::Syntax,
{
}

/// An array has no width exactly where it is of indefinite length, and the width
/// `Unknown` where it is of definite length.
pub proof fn law_array_width(s: Seq<u8>, i: int)
    requires
        spec_array(s, i) is Some,
    ensures
        ({
            let item = (spec_array(s, i)->0).0;
            &&& item is Array
            &&& item->Array_bitwidth is None <==> spec_definite_array(s, i) is None
            &&& item->Array_bitwidth is Some ==> item->Array_bitwidth == Some(
                IntegerWidth::Unknown,
            )
        }),
{
}

/// A map has no width exactly where it is of indefinite length, and the width
/// `Unknown` where it is of definite length.
pub proof fn law_map_width(s: Seq<u8>, i: int)
    requires
        spec_data_map(s, i) is Some,
    ensures
        ({
            let item = (spec_data_map(s, i)->0).0;
            &&& item is Mapping
            &&& item->Mapping_bitwidth is None <==> spec_definite_map(s, i) is None
            &&& item->Mapping_bitwidth is Some ==> item->Mapping_bitwidth == Some(
                IntegerWidth::Unknown,
            )
        }),
{
}

/// Literals that are joined into one byte string or one text string leave it with
/// the width `Unknown`.
pub proof fn law_joined_width(s: Seq<u8>, i: int)
    ensures
        spec_concatenated_definite_bytestring(s, i) is Some ==> (
        spec_concatenated_definite_bytestring(s, i)->0).0.bitwidth == IntegerWidth::Unknown,
        spec_concatenated_definite_textstring(s, i) is Some ==> (
        spec_concatenated_definite_textstring(s, i)->0).0.bitwidth == IntegerWidth::Unknown,
{
}

/// A tagged item has the width of its tag number: the one that a suffix names, else
/// `Zero` up to 23 and `Unknown` from 24 on.
pub proof fn law_tag_width(s: Seq<u8>, i: int)
    requires
        spec_tagged(s, i) is Some,
    ensures
        ({
            let item = (spec_tagged(s, i)->0).0;
            let (number, bitwidth) = (spec_integer(s, i)->0).0;
            &&& spec_integer(s, i) is Some
            &&& item is Tag
            &&& item->Tag_tag == number
            &&& item->Tag_bitwidth == shortest(number, bitwidth, 23)
        }),
{
}

/// A data item at the beginning of a text takes at least one byte of it and ends
/// inside it, and a fault lies inside the text.
pub proof fn law_positions(s: Seq<u8>)
    ensures
        spec_data_item(s, 0) is Some ==> 0 < (spec_data_item(s, 0)->0).1 <= s.len(),
        spec_parse_diag(s) is Err ==> 0 <= spec_parse_diag(s)->Err_0.offset <= s.len(),
{
    if spec_data_item(s, 0) is Some {
        lemma_data_item_ends(s, 0);
    } else {
        lemma_run_end(s, 0, Class::Layout);
    }
}

/// No form but the byte string begins with `h` or `b`.
proof fn lemma_behind_h_or_b(s: Seq<u8>)
    requires
        has_byte(s, 0, LOWER_H) || has_byte(s, 0, LOWER_B),
    ensures
        spec_alternatives(s, 0) == spec_bytestring(s, 0),
{
    lemma_run_covers(s, 0, 0, Class::Layout);
    lemma_alternatives(s, 0);
    if spec_float(s, 0) is Some {
        lemma_float_begins(s, 0);
    }
    if spec_tagged(s, 0) is Some {
        lemma_tagged_begins(s, 0);
    }
    if spec_positive(s, 0) is Some {
        reveal(spec_positive);
        lemma_integer_begins(s, 0);
    }
    if spec_negative(s, 0) is Some {
        reveal(spec_negative);
    }
    if spec_textstring(s, 0) is Some {
        lemma_textstring_begins(s, 0);
    }
    if spec_array(s, 0) is Some {
        lemma_array_begins(s, 0);
    }
    if spec_data_map(s, 0) is Some {
        lemma_data_map_begins(s, 0);
    }
    if spec_simple(s, 0) is Some {
        lemma_simple_begins(s, 0);
    }
}

/// What a text denotes that is one byte string literal and nothing else, given what
/// the literal was decoded to.
pub open spec fn sole_byte_string(decoded: Option<Seq<u8>>) -> Result<Item, Fault> {
    match decoded {
        Some(data) => Ok(Item::ByteString(Bytes { data, bitwidth: IntegerWidth::Unknown })),
        None => Err(
            Fault {
                kind: ErrorKind::Syntax,
                offset: 0,
                path: seq![Label::DataItem, Label::Simple],
            },
        ),
    }
}

/// A text that begins with `h` or `b` and is one literal denotes the bytes of that
/// literal, and nothing where no literal is matched.
proof fn lemma_sole_encoded_literal(s: Seq<u8>)
    requires
        has_byte(s, 0, LOWER_H) || has_byte(s, 0, LOWER_B),
        spec_literal(s, 0) is Some ==> (spec_literal(s, 0)->0).1 == s.len(),
    ensures
        spec_parse_diag(s) == sole_byte_string(
            match spec_literal(s, 0) {
                Some((bytes, end)) => Some(bytes),
                None => None,
            },
        ),
{
    let n = s.len() as int;
    lemma_run_covers(s, 0, 0, Class::Layout);
    lemma_run_covers(s, n, n, Class::Layout);
    lemma_behind_h_or_b(s);
    lemma_sole_literal(s);
}

/// The text `h'`, a body of base16 digits and layout, `'` denotes the bytes that the
/// body is decoded to once its layout is taken out, and nothing where it is not
/// decoded.
pub proof fn law_base16_literal(body: Seq<u8>)
    requires
        all_of(body, Class::Base16),
    ensures
        spec_parse_diag(quoted("h".spec_bytes(), body)) == sole_byte_string(
            base16_decoded(without_layout(body)),
        ),
{
    reveal_strlit("h");
    reveal_strlit("b32");
    reveal_strlit("h32");
    reveal_strlit("b64");
    is_ascii_chars_encode_utf8("h"@);
    is_ascii_chars_encode_utf8("b32"@);
    is_ascii_chars_encode_utf8("h32"@);
    is_ascii_chars_encode_utf8("b64"@);
    let s = quoted("h".spec_bytes(), body);
    lemma_quoted_body("h".spec_bytes(), body, Class::Base16);
    assert(s[0] == LOWER_H && s[1] == QUOTE);
    if spec_tag(s, 0, "b32".spec_bytes()) is Some {
        lemma_tag_begins(s, 0, "b32".spec_bytes());
    }
    if spec_tag(s, 0, "h32".spec_bytes()) is Some {
        assert(s.subrange(0, 3)[1] == "h32".spec_bytes()[1]);
    }
    if spec_tag(s, 0, "b64".spec_bytes()) is Some {
        lemma_tag_begins(s, 0, "b64".spec_bytes());
    }
    lemma_sole_encoded_literal(s);
}

/// The text `b32'`, a body of base32 digits, `=` and layout, `'` denotes the bytes
/// that the body is decoded to once its layout is taken out, and nothing where it is
/// not decoded.
pub proof fn law_base32_literal(body: Seq<u8>)
    requires
        all_of(body, Class::Base32),
    ensures
        spec_parse_diag(quoted("b32".spec_bytes(), body)) == sole_byte_string(
            base32_decoded(without_layout(body)),
        ),
{
    reveal_strlit("h");
    reveal_strlit("b32");
    reveal_strlit("h32");
    reveal_strlit("b64");
    is_ascii_chars_encode_utf8("h"@);
    is_ascii_chars_encode_utf8("b32"@);
    is_ascii_chars_encode_utf8("h32"@);
    is_ascii_chars_encode_utf8("b64"@);
    let s = quoted("b32".spec_bytes(), body);
    lemma_quoted_body("b32".spec_bytes(), body, Class::Base32);
    if spec_tag(s, 0, "h".spec_bytes()) is Some {
        lemma_tag_begins(s, 0, "h".spec_bytes());
    }
    if spec_tag(s, 0, "h32".spec_bytes()) is Some {
        lemma_tag_begins(s, 0, "h32".spec_bytes());
    }
    if spec_tag(s, 0, "b64".spec_bytes()) is Some {
        assert(s.subrange(0, 3)[1] == "b64".spec_bytes()[1]);
    }
    lemma_sole_encoded_literal(s);
}

/// The text `h32'`, a body of digits of the extended hexadecimal alphabet, `=` and
/// layout, `'` denotes the bytes that the body is decoded to once its layout is taken
/// out, and nothing where it is not decoded.
pub proof fn law_base32hex_literal(body: Seq<u8>)
    requires
        all_of(body, Class::Base32Hex),
    ensures
        spec_parse_diag(quoted("h32".spec_bytes(), body)) == sole_byte_string(
            base32hex_decoded(without_layout(body)),
        ),
{
    reveal_strlit("h");
    reveal_strlit("b32");
    reveal_strlit("h32");
    reveal_strlit("b64");
    is_ascii_chars_encode_utf8("h"@);
    is_ascii_chars_encode_utf8("b32"@);
    is_ascii_chars_encode_utf8("h32"@);
    is_ascii_chars_encode_utf8("b64"@);
    let s = quoted("h32".spec_bytes(), body);
    lemma_quoted_body("h32".spec_bytes(), body, Class::Base32Hex);
    assert(s.subrange(0, 1) == "h".spec_bytes());
    if spec_tag(s, 0, "b32".spec_bytes()) is Some {
        lemma_tag_begins(s, 0, "b32".spec_bytes());
    }
    if spec_tag(s, 0, "b64".spec_bytes()) is Some {
        lemma_tag_begins(s, 0, "b64".spec_bytes());
    }
    lemma_sole_encoded_literal(s);
}

/// The text `b64'`, a body, `'`, where the body holds digits of either base64
/// alphabet, `=` and layout: where the body holds digits of the URL-safe alphabet
/// and layout only, and is decoded as such once its layout is taken out, the text
/// denotes those bytes. Else, where it holds digits of the standard alphabet, `=`
/// and layout only, and is decoded as such once its layout is taken out, the text
/// denotes those bytes. Else it denotes nothing.
pub proof fn law_base64_literal(body: Seq<u8>)
    requires
        forall|k: int|
            0 <= k < body.len() ==> Class::Base64Url.has(#[trigger] body[k]) || Class::Base64.has(
                body[k],
            ),
    ensures
        spec_parse_diag(quoted("b64".spec_bytes(), body)) == sole_byte_string(
            or_else(
                if all_of(body, Class::Base64Url) {
                    base64url_decoded(without_layout(body))
                } else {
                    None
                },
                if all_of(body, Class::Base64) {
                    base64_decoded(without_layout(body))
                } else {
                    None
                },
            ),
        ),
{
    reveal_strlit("h");
    reveal_strlit("b32");
    reveal_strlit("h32");
    reveal_strlit("b64");
    is_ascii_chars_encode_utf8("h"@);
    is_ascii_chars_encode_utf8("b32"@);
    is_ascii_chars_encode_utf8("h32"@);
    is_ascii_chars_encode_utf8("b64"@);
    let s = quoted("b64".spec_bytes(), body);
    assert forall|k: int| 0 <= k < body.len() implies #[trigger] body[k] != QUOTE by {
        assert(Class::Base64Url.has(body[k]) || Class::Base64.has(body[k]));
    }
    lemma_quoted_body("b64".spec_bytes(), body, Class::Base64Url);
    lemma_quoted_body("b64".spec_bytes(), body, Class::Base64);
    if spec_tag(s, 0, "h".spec_bytes()) is Some {
        lemma_tag_begins(s, 0, "h".spec_bytes());
    }
    if spec_tag(s, 0, "h32".spec_bytes()) is Some {
        lemma_tag_begins(s, 0, "h32".spec_bytes());
    }
    if spec_tag(s, 0, "b32".spec_bytes()) is Some {
        assert(s.subrange(0, 3)[1] == "b32".spec_bytes()[1]);
    }
    lemma_sole_encoded_literal(s);
}

/// Layout inside the body of an encoded literal counts for nothing: a text that is
/// one such literal denotes what the text does that has the same body without its
/// layout.
pub proof fn law_layout_in_encoded_body(body: Seq<u8>)
    ensures
        all_of(body, Class::Base16) ==> spec_parse_diag(quoted("h".spec_bytes(), body))
            == spec_parse_diag(quoted("h".spec_bytes(), without_layout(body))),
        all_of(body, Class::Base32) ==> spec_parse_diag(quoted("b32".spec_bytes(), body))
            == spec_parse_diag(quoted("b32".spec_bytes(), without_layout(body))),
        all_of(body, Class::Base32Hex) ==> spec_parse_diag(quoted("h32".spec_bytes(), body))
            == spec_parse_diag(quoted("h32".spec_bytes(), without_layout(body))),
        all_of(body, Class::Base64Url) || all_of(body, Class::Base64) ==> spec_parse_diag(
            quoted("b64".spec_bytes(), body),
        ) == spec_parse_diag(quoted("b64".spec_bytes(), without_layout(body))),
{
    let stripped = without_layout(body);
    lemma_without_layout(body, Class::Base16);
    lemma_without_layout(body, Class::Base32);
    lemma_without_layout(body, Class::Base32Hex);
    lemma_without_layout(body, Class::Base64Url);
    lemma_without_layout(body, Class::Base64);
    if all_of(body, Class::Base16) {
        law_base16_literal(body);
        law_base16_literal(stripped);
    }
    if all_of(body, Class::Base32) {
        law_base32_literal(body);
        law_base32_literal(stripped);
    }
    if all_of(body, Class::Base32Hex) {
        law_base32hex_literal(body);
        law_base32hex_literal(stripped);
    }
    if all_of(body, Class::Base64Url) || all_of(body, Class::Base64) {
        assert forall|k: int| 0 <= k < body.len() implies Class::Base64Url.has(
            #[trigger] body[k],
        ) || Class::Base64.has(body[k]) by {}
        assert forall|k: int| 0 <= k < stripped.len() implies Class::Base64Url.has(
            #[trigger] stripped[k],
        ) || Class::Base64.has(stripped[k]) by {}
        law_base64_literal(body);
        law_base64_literal(stripped);
    }
}

/// No form but the byte string begins with a quote, and none but the text string
/// with a double quote.
proof fn lemma_behind_quote(s: Seq<u8>)
    requires
        has_byte(s, 0, QUOTE) || has_byte(s, 0, DOUBLE_QUOTE),
    ensures
        spec_alternatives(s, 0) == if s[0] == QUOTE {
            spec_bytestring(s, 0)
        } else {
            spec_textstring(s, 0)
        },
{
    lemma_run_covers(s, 0, 0, Class::Layout);
    lemma_alternatives(s, 0);
    if spec_float(s, 0) is Some {
        lemma_float_begins(s, 0);
    }
    if spec_tagged(s, 0) is Some {
        lemma_tagged_begins(s, 0);
    }
    if spec_positive(s, 0) is Some {
        reveal(spec_positive);
        lemma_integer_begins(s, 0);
    }
    if spec_negative(s, 0) is Some {
        reveal(spec_negative);
    }
    if spec_bytestring(s, 0) is Some {
        lemma_bytestring_begins(s, 0);
    }
    if spec_textstring(s, 0) is Some {
        lemma_textstring_begins(s, 0);
    }
    if spec_array(s, 0) is Some {
        lemma_array_begins(s, 0);
    }
    if spec_data_map(s, 0) is Some {
        lemma_data_map_begins(s, 0);
    }
    if spec_simple(s, 0) is Some {
        lemma_simple_begins(s, 0);
    }
}

/// Two raw literals of bytes that stand for themselves, with a space between them,
/// denote one byte string: the bytes of the first and behind them those of the
/// second, with the width `Unknown`.
pub proof fn law_raw_literals_joined(first: Seq<u8>, second: Seq<u8>)
    requires
        is_plain(first, QUOTE),
        is_plain(second, QUOTE),
    ensures
        spec_parse_diag(
            seq![QUOTE] + first + seq![QUOTE, SPACE, QUOTE] + second + seq![QUOTE],
        ) == Ok::<Item, Fault>(
            Item::ByteString(Bytes { data: first + second, bitwidth: IntegerWidth::Unknown }),
        ),
{
    let s = seq![QUOTE] + first + seq![QUOTE, SPACE, QUOTE] + second + seq![QUOTE];
    let n = s.len() as int;
    let a = first.len() as int + 2;
    assert(s[0] == QUOTE && s[a - 1] == QUOTE && s[a] == SPACE && s[a + 1] == QUOTE && s[n - 1]
        == QUOTE);
    assert(s.subrange(1, a - 1) == first);
    assert(s.subrange(a + 2, n - 1) == second);
    lemma_plain_literal(s, 0, first);
    lemma_plain_literal(s, a + 1, second);
    lemma_run_covers(s, 0, 0, Class::Layout);
    lemma_run_covers(s, a, a + 1, Class::Layout);
    lemma_run_covers(s, a + 1, a + 1, Class::Layout);
    lemma_run_covers(s, n, n, Class::Layout);
    lemma_no_literal_at_the_end(s);
    assert(spec_definite_bytestring(s, 0) == Some((first, a + 1)));
    assert(spec_definite_bytestring(s, a + 1) == Some((second, n)));
    assert(spec_more_bytestrings(s, a + 1) == (second + Seq::<u8>::empty(), n));
    assert(first + (second + Seq::<u8>::empty()) == first + second);
    reveal(spec_bytestring);
    lemma_behind_quote(s);
}

/// A text string literal of bytes that stand for themselves denotes the text that
/// the bytes encode, with the width `Unknown`, and nothing where they are not UTF-8.
pub proof fn law_text_literal(body: Seq<u8>)
    requires
        is_plain(body, DOUBLE_QUOTE),
    ensures
        spec_parse_diag(seq![DOUBLE_QUOTE] + body + seq![DOUBLE_QUOTE]) == if valid_utf8(body) {
            Ok::<Item, Fault>(
                Item::TextString(
                    Text { data: decode_utf8(body), bitwidth: IntegerWidth::Unknown },
                ),
            )
        } else {
            Err::<Item, Fault>(
                Fault {
                    kind: ErrorKind::Syntax,
                    offset: 0,
                    path: seq![Label::DataItem, Label::Simple],
                },
            )
        },
{
    let s = seq![DOUBLE_QUOTE] + body + seq![DOUBLE_QUOTE];
    let n = s.len() as int;
    assert(s[0] == DOUBLE_QUOTE && s[n - 1] == DOUBLE_QUOTE);
    assert(s.subrange(1, n - 1) == body);
    lemma_plain_body(s, 1, body, DOUBLE_QUOTE);
    lemma_run_covers(s, 0, 0, Class::Layout);
    lemma_run_covers(s, n, n, Class::Layout);
    lemma_no_literal_at_the_end(s);
    assert(spec_definite_textstring(s, 0) == Some((body, n)));
    assert(spec_more_pieces(s, n) == (Seq::<u8>::empty(), n));
    assert(body + Seq::<u8>::empty() == body);
    reveal(spec_textstring);
    reveal_strlit("(_");
    is_ascii_chars_encode_utf8("(_"@);
    if spec_tag(s, 0, "(_".spec_bytes()) is Some {
        lemma_tag_begins(s, 0, "(_".spec_bytes());
    }
    lemma_behind_quote(s);
}

} // verus!
