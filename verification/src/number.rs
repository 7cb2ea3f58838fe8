//! Unsigned and negative integer literals and their width suffix.

use crate::item::{DataItem, IntegerWidth, Item};
use crate::lexical::{
    byte_at, has_byte, is_digit, lemma_run_end, run_end, scan, Class, DIGIT_0, MINUS, UNDERSCORE,
};
use vstd::prelude::*;

verus! {

/// The number that a sequence of decimal digits denotes.
pub open spec fn decimal(digits: Seq<u8>) -> nat
    decreases digits.len(),
{
    if digits.len() == 0 {
        0
    } else {
        (decimal(digits.drop_last()) * 10 + (digits.last() - DIGIT_0)) as nat
    }
}

/// A longer run of digits denotes no smaller number than its beginning.
pub proof fn lemma_decimal_grows(s: Seq<u8>, i: int, k: int, j: int)
    requires
        0 <= i <= k <= j <= s.len(),
        forall|n: int| i <= n < j ==> is_digit(#[trigger] s[n]),
    ensures
        decimal(s.subrange(i, k)) <= decimal(s.subrange(i, j)),
    decreases j - k,
{
    if k < j {
        lemma_decimal_grows(s, i, k, j - 1);
        assert(s.subrange(i, j).drop_last() == s.subrange(i, j - 1));
    }
}

/// A run of one or more digits at `i` whose number fits in 64 bits: the number and
/// where the run ends.
pub open spec fn spec_number(s: Seq<u8>, i: int) -> Option<(u64, int)> {
    let j = run_end(s, i, Class::Digit);
    let n = decimal(s.subrange(i, j));
    if i < j && n <= u64::MAX {
        Some((n as u64, j))
    } else {
        None
    }
}

/// The width suffix at `i`: `_` and a number below 4.
pub open spec fn spec_encoding(s: Seq<u8>, i: int) -> Option<(u64, int)> {
    if has_byte(s, i, UNDERSCORE) {
        match spec_number(s, i + 1) {
            Some((e, j)) => if e < 4 {
                Some((e, j))
            } else {
                None
            },
            None => None,
        }
    } else {
        None
    }
}

/// The width that a suffix names.
pub open spec fn width_of(e: u64) -> IntegerWidth {
    if e == 0 {
        IntegerWidth::Eight
    } else if e == 1 {
        IntegerWidth::Sixteen
    } else if e == 2 {
        IntegerWidth::ThirtyTwo
    } else {
        IntegerWidth::SixtyFour
    }
}

/// An unsigned integer literal at `i`: a number, then a width suffix where one
/// follows; without one the width is `Unknown`.
pub open spec fn spec_integer(s: Seq<u8>, i: int) -> Option<((u64, IntegerWidth), int)> {
    match spec_number(s, i) {
        Some((value, j)) => match spec_encoding(s, j) {
            Some((e, k)) => Some(((value, width_of(e)), k)),
            None => Some(((value, IntegerWidth::Unknown), j)),
        },
        None => None,
    }
}

/// The width of a literal whose suffix gave `bitwidth`: a literal without a suffix
/// that is at most `limit` is packed into the initial byte.
pub open spec fn shortest(value: u64, bitwidth: IntegerWidth, limit: u64) -> IntegerWidth {
    if bitwidth == IntegerWidth::Unknown && value <= limit {
        IntegerWidth::Zero
    } else {
        bitwidth
    }
}

/// A non-negative integer at `i`.
#[verifier::opaque]
pub open spec fn spec_positive(s: Seq<u8>, i: int) -> Option<(Item, int)> {
    match spec_integer(s, i) {
        Some(((value, bitwidth), j)) => Some(
            (Item::Integer { value, bitwidth: shortest(value, bitwidth, 23) }, j),
        ),
        None => None,
    }
}

/// A negative integer at `i`: `-` and an unsigned literal other than zero, of which
/// one less is kept.
#[verifier::opaque]
pub open spec fn spec_negative(s: Seq<u8>, i: int) -> Option<(Item, int)> {
    if has_byte(s, i, MINUS) {
        match spec_integer(s, i + 1) {
            Some(((value, bitwidth), j)) => if value > 0 {
                Some(
                    (
                        Item::Negative {
                            value: (value - 1) as u64,
                            bitwidth: shortest(value, bitwidth, 24),
                        },
                        j,
                    ),
                )
            } else {
                None
            },
            None => None,
        }
    } else {
        None
    }
}

/// Reads a run of digits as a 64-bit number.
pub fn number(input: &[u8], pos: usize) -> (r: Option<(u64, usize)>)
    requires
        pos <= input.len(),
    ensures
        r matches Some((value, end)) ==> spec_number(input@, pos as int) == Some(
            (value, end as int),
        ) && pos < end <= input.len(),
        r is None ==> spec_number(input@, pos as int) is None,
{
    let end = scan(input, pos, Class::Digit);
    if end == pos {
        return None;
    }
    proof {
        lemma_run_end(input@, pos as int, Class::Digit);
    }
    let mut value: u64 = 0;
    let mut k = pos;
    while k < end
        invariant
            pos <= k <= end <= input.len(),
            end == run_end(input@, pos as int, Class::Digit),
            value == decimal(input@.subrange(pos as int, k as int)),
            forall|n: int| pos <= n < end ==> is_digit(#[trigger] input@[n]),
        decreases end - k,
    {
        let digit = (input[k] - DIGIT_0) as u64;
        proof {
            assert(input@.subrange(pos as int, k + 1).drop_last() == input@.subrange(
                pos as int,
                k as int,
            ));
            lemma_decimal_grows(input@, pos as int, k + 1, end as int);
            assert(input@.subrange(pos as int, k + 1).last() == input@[k as int]);
            assert(decimal(input@.subrange(pos as int, k + 1)) == value * 10 + digit);
        }
        if value > (u64::MAX - digit) / 10 {
            return None;
        }
        value = value * 10 + digit;
        k += 1;
    }
    Some((value, end))
}

/// Reads a width suffix.
pub fn encoding(input: &[u8], pos: usize) -> (r: Option<(u64, usize)>)
    requires
        pos <= input.len(),
    ensures
        r matches Some((e, end)) ==> spec_encoding(input@, pos as int) == Some((e, end as int))
            && pos < end <= input.len(),
        r is None ==> spec_encoding(input@, pos as int) is None,
{
    if !byte_at(input, pos, UNDERSCORE) {
        return None;
    }
    match number(input, pos + 1) {
        Some((e, end)) => if e < 4 {
            Some((e, end))
        } else {
            None
        },
        None => None,
    }
}

/// Reads an unsigned integer literal with its width.
pub fn integer(input: &[u8], pos: usize) -> (r: Option<((u64, IntegerWidth), usize)>)
    requires
        pos <= input.len(),
    ensures
        r matches Some((literal, end)) ==> spec_integer(input@, pos as int) == Some(
            (literal, end as int),
        ) && pos < end <= input.len(),
        r is None ==> spec_integer(input@, pos as int) is None,
{
    let (value, after) = match number(input, pos) {
        Some(found) => found,
        None => {
            return None;
        },
    };
    match encoding(input, after) {
        Some((e, end)) => {
            let bitwidth = if e == 0 {
                IntegerWidth::Eight
            } else if e == 1 {
                IntegerWidth::Sixteen
            } else if e == 2 {
                IntegerWidth::ThirtyTwo
            } else {
                IntegerWidth::SixtyFour
            };
            Some(((value, bitwidth), end))
        },
        None => Some(((value, IntegerWidth::Unknown), after)),
    }
}

/// Reads a non-negative integer.
pub fn positive(input: &[u8], pos: usize) -> (r: Option<(DataItem, usize)>)
    requires
        pos <= input.len(),
    ensures
        r matches Some((item, end)) ==> spec_positive(input@, pos as int) == Some(
            (item@, end as int),
        ) && pos < end <= input.len(),
        r is None ==> spec_positive(input@, pos as int) is None,
{
    reveal(spec_positive);
    match integer(input, pos) {
        Some(((value, bitwidth), end)) => {
            let bitwidth = if bitwidth == IntegerWidth::Unknown && value <= 23 {
                IntegerWidth::Zero
            } else {
                bitwidth
            };
            Some((DataItem::Integer { value, bitwidth }, end))
        },
        None => None,
    }
}

/// Reads a negative integer.
pub fn negative(input: &[u8], pos: usize) -> (r: Option<(DataItem, usize)>)
    requires
        pos <= input.len(),
    ensures
        r matches Some((item, end)) ==> spec_negative(input@, pos as int) == Some(
            (item@, end as int),
        ) && pos < end <= input.len(),
        r is None ==> spec_negative(input@, pos as int) is None,
{
    reveal(spec_negative);
    if !byte_at(input, pos, MINUS) {
        return None;
    }
    match integer(input, pos + 1) {
        Some(((value, bitwidth), end)) => {
            if value == 0 {
                return None;
            }
            let bitwidth = if bitwidth == IntegerWidth::Unknown && value <= 24 {
                IntegerWidth::Zero
            } else {
                bitwidth
            };
            Some((DataItem::Negative { value: value - 1, bitwidth }, end))
        },
        None => None,
    }
}

/// An unsigned integer literal begins with a digit and ends inside the input.
pub proof fn lemma_integer_begins(s: Seq<u8>, i: int)
    requires
        0 <= i <= s.len(),
        spec_integer(s, i) is Some,
    ensures
        i < s.len(),
        is_digit(s[i]),
        i < (spec_integer(s, i)->0).1 <= s.len(),
{
    lemma_run_end(s, i, Class::Digit);
    let j = run_end(s, i, Class::Digit);
    if has_byte(s, j, UNDERSCORE) {
        lemma_run_end(s, j + 1, Class::Digit);
    }
}

} // verus!
