//! Simple values: four words and the numbered form.

use crate::item::{
    DataItem, Item, Simple, SIMPLE_FALSE, SIMPLE_NULL, SIMPLE_TRUE, SIMPLE_UNDEFINED,
};
use crate::lexical::{
    byte_at, has_byte, lemma_tag_begins, spec_tag, tag, CLOSE_PAREN, LOWER_F, LOWER_N, LOWER_S,
    LOWER_T, LOWER_U, OPEN_PAREN,
};
use crate::number::{number, spec_number};
use vstd::prelude::*;
use vstd::string::*;
use vstd::utf8::*;

verus! {

/// The numbered form at `i`: `simple(`, a number of at most 255, `)`.
pub open spec fn spec_numbered(s: Seq<u8>, i: int) -> Option<(Item, int)> {
    match spec_tag(s, i, "simple".spec_bytes()) {
        Some(open) => if has_byte(s, open, OPEN_PAREN) {
            match spec_number(s, open + 1) {
                Some((code, close)) => if code <= 255 && has_byte(s, close, CLOSE_PAREN) {
                    Some((Item::Simple(code as u8), close + 1))
                } else {
                    None
                },
                None => None,
            }
        } else {
            None
        },
        None => None,
    }
}

/// A simple value at `i`: `false`, `true`, `null`, `undefined`, or the numbered form.
#[verifier::opaque]
pub open spec fn spec_simple(s: Seq<u8>, i: int) -> Option<(Item, int)> {
    if let Some(end) = spec_tag(s, i, "false".spec_bytes()) {
        Some((Item::Simple(SIMPLE_FALSE), end))
    } else if let Some(end) = spec_tag(s, i, "true".spec_bytes()) {
        Some((Item::Simple(SIMPLE_TRUE), end))
    } else if let Some(end) = spec_tag(s, i, "null".spec_bytes()) {
        Some((Item::Simple(SIMPLE_NULL), end))
    } else if let Some(end) = spec_tag(s, i, "undefined".spec_bytes()) {
        Some((Item::Simple(SIMPLE_UNDEFINED), end))
    } else {
        spec_numbered(s, i)
    }
}

fn numbered(input: &[u8], pos: usize) -> (r: Option<(DataItem, usize)>)
    requires
        pos <= input.len(),
    ensures
        r matches Some((item, end)) ==> spec_numbered(input@, pos as int) == Some(
            (item@, end as int),
        ) && pos < end <= input.len(),
        r is None ==> spec_numbered(input@, pos as int) is None,
{
    let open = match tag(input, pos, "simple") {
        Some(end) => end,
        None => {
            return None;
        },
    };
    if !byte_at(input, open, OPEN_PAREN) {
        return None;
    }
    match number(input, open + 1) {
        Some((code, close)) => {
            if code <= 255 && byte_at(input, close, CLOSE_PAREN) {
                Some((DataItem::Simple(Simple(code as u8)), close + 1))
            } else {
                None
            }
        },
        None => None,
    }
}

/// Reads a simple value.
pub fn simple(input: &[u8], pos: usize) -> (r: Option<(DataItem, usize)>)
    requires
        pos <= input.len(),
    ensures
        r matches Some((item, end)) ==> spec_simple(input@, pos as int) == Some((item@, end as int))
            && pos < end <= input.len(),
        r is None ==> spec_simple(input@, pos as int) is None,
{
    reveal(spec_simple);
    proof {
        reveal_strlit("false");
        reveal_strlit("true");
        reveal_strlit("null");
        reveal_strlit("undefined");
        is_ascii_chars_encode_utf8("false"@);
        is_ascii_chars_encode_utf8("true"@);
        is_ascii_chars_encode_utf8("null"@);
        is_ascii_chars_encode_utf8("undefined"@);
    }
    if let Some(end) = tag(input, pos, "false") {
        Some((DataItem::Simple(Simple(SIMPLE_FALSE)), end))
    } else if let Some(end) = tag(input, pos, "true") {
        Some((DataItem::Simple(Simple(SIMPLE_TRUE)), end))
    } else if let Some(end) = tag(input, pos, "null") {
        Some((DataItem::Simple(Simple(SIMPLE_NULL)), end))
    } else if let Some(end) = tag(input, pos, "undefined") {
        Some((DataItem::Simple(Simple(SIMPLE_UNDEFINED)), end))
    } else {
        numbered(input, pos)
    }
}

/// A simple value begins with the first letter of one of its five words.
pub proof fn lemma_simple_begins(s: Seq<u8>, i: int)
    requires
        spec_simple(s, i) is Some,
    ensures
        0 <= i < s.len(),
        s[i] == LOWER_F || s[i] == LOWER_T || s[i] == LOWER_N || s[i] == LOWER_U || s[i] == LOWER_S,
{
    reveal(spec_simple);
    reveal_strlit("false");
    reveal_strlit("true");
    reveal_strlit("null");
    reveal_strlit("undefined");
    reveal_strlit("simple");
    is_ascii_chars_encode_utf8("false"@);
    is_ascii_chars_encode_utf8("true"@);
    is_ascii_chars_encode_utf8("null"@);
    is_ascii_chars_encode_utf8("undefined"@);
    is_ascii_chars_encode_utf8("simple"@);
    if spec_tag(s, i, "false".spec_bytes()) is Some {
        lemma_tag_begins(s, i, "false".spec_bytes());
    } else if spec_tag(s, i, "true".spec_bytes()) is Some {
        lemma_tag_begins(s, i, "true".spec_bytes());
    } else if spec_tag(s, i, "null".spec_bytes()) is Some {
        lemma_tag_begins(s, i, "null".spec_bytes());
    } else if spec_tag(s, i, "undefined".spec_bytes()) is Some {
        lemma_tag_begins(s, i, "undefined".spec_bytes());
    } else {
        lemma_tag_begins(s, i, "simple".spec_bytes());
    }
}

/// Where `s` stands, the only simple value that may stand is the numbered form.
pub proof fn lemma_simple_behind_s(s: Seq<u8>, i: int)
    requires
        has_byte(s, i, LOWER_S),
    ensures
        spec_simple(s, i) == spec_numbered(s, i),
{
    reveal(spec_simple);
    reveal_strlit("false");
    reveal_strlit("true");
    reveal_strlit("null");
    reveal_strlit("undefined");
    is_ascii_chars_encode_utf8("false"@);
    is_ascii_chars_encode_utf8("true"@);
    is_ascii_chars_encode_utf8("null"@);
    is_ascii_chars_encode_utf8("undefined"@);
    if spec_tag(s, i, "false".spec_bytes()) is Some {
        lemma_tag_begins(s, i, "false".spec_bytes());
    }
    if spec_tag(s, i, "true".spec_bytes()) is Some {
        lemma_tag_begins(s, i, "true".spec_bytes());
    }
    if spec_tag(s, i, "null".spec_bytes()) is Some {
        lemma_tag_begins(s, i, "null".spec_bytes());
    }
    if spec_tag(s, i, "undefined".spec_bytes()) is Some {
        lemma_tag_begins(s, i, "undefined".spec_bytes());
    }
}

/// A simple value is not empty and ends inside the input.
pub proof fn lemma_simple_ends(s: Seq<u8>, i: int)
    requires
        0 <= i <= s.len(),
        spec_simple(s, i) is Some,
    ensures
        i < (spec_simple(s, i)->0).1 <= s.len(),
{
    reveal(spec_simple);
    reveal_strlit("false");
    reveal_strlit("true");
    reveal_strlit("null");
    reveal_strlit("undefined");
    is_ascii_chars_encode_utf8("false"@);
    is_ascii_chars_encode_utf8("true"@);
    is_ascii_chars_encode_utf8("null"@);
    is_ascii_chars_encode_utf8("undefined"@);
}

} // verus!
