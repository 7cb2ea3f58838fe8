//! The nested part of the grammar: arrays, maps, tags, and the data item that they
//! hold and that holds them.

use crate::bytes::{bytestring, lemma_bytestring_ends, spec_bytestring};
use crate::float::{float, lemma_float_ends, spec_float};
use crate::item::{
    lemma_array_model, lemma_mapping_model, models, pair_models, DataItem, IntegerWidth, Item, Tag,
};
use crate::lexical::{
    byte_at, has_byte, is_digit, lemma_run_end, lemma_tag_begins, opt_comma_tag, or_else, run_end,
    spec_opt_comma_tag, spec_tag, tag, ws, Class, CLOSE_BRACE, CLOSE_BRACKET, CLOSE_PAREN, COLON,
    COMMA, OPEN_BRACE, OPEN_BRACKET, OPEN_PAREN,
};
use crate::number::{
    integer, lemma_integer_begins, negative, positive, shortest, spec_integer, spec_negative,
    spec_positive,
};
use crate::simple::{lemma_simple_ends, simple, spec_simple};
use crate::text::{lemma_textstring_ends, spec_textstring, textstring};
use vstd::prelude::*;
use vstd::string::*;
use vstd::utf8::*;

verus! {

/// The data item at `i`, with the layout around it. The bounds that this and the
/// functions below test before they go on are there for the recursion: whatever is
/// matched inside the input ends inside it, behind where it began.
pub open spec fn spec_data_item(s: Seq<u8>, i: int) -> Option<(Item, int)>
    decreases s.len() - i, 4int,
{
    let start = run_end(s, i, Class::Layout);
    if i <= start <= s.len() {
        match spec_alternatives(s, start) {
            Some((item, end)) => Some((item, run_end(s, end, Class::Layout))),
            None => None,
        }
    } else {
        None
    }
}

/// The data item at `i` in the first form that is matched there: float, tagged
/// item, non-negative integer, negative integer, byte string, text string, array,
/// map, simple value.
pub open spec fn spec_alternatives(s: Seq<u8>, i: int) -> Option<(Item, int)>
    decreases s.len() - i, 3int,
{
    or_else(
        spec_float(s, i),
        or_else(
            spec_tagged(s, i),
            or_else(
                spec_positive(s, i),
                or_else(
                    spec_negative(s, i),
                    or_else(
                        spec_bytestring(s, i),
                        or_else(
                            spec_textstring(s, i),
                            or_else(
                                spec_array(s, i),
                                or_else(spec_data_map(s, i), spec_simple(s, i)),
                            ),
                        ),
                    ),
                ),
            ),
        ),
    )
}

/// The tagged item at `i`: an unsigned integer literal, `(`, a data item, `)`.
pub open spec fn spec_tagged(s: Seq<u8>, i: int) -> Option<(Item, int)>
    decreases s.len() - i, 0int,
{
    match spec_integer(s, i) {
        Some(((number, bitwidth), open)) => if i <= open && has_byte(s, open, OPEN_PAREN) {
            match spec_data_item(s, open + 1) {
                Some((value, close)) => if has_byte(s, close, CLOSE_PAREN) {
                    Some(
                        (
                            Item::Tag {
                                tag: number,
                                bitwidth: shortest(number, bitwidth, 23),
                                value: Box::new(value),
                            },
                            close + 1,
                        ),
                    )
                } else {
                    None
                },
                None => None,
            }
        } else {
            None
        },
        None => None,
    }
}

/// The data items behind a comma at `i`, each behind a comma of its own, and where
/// the last one ends.
pub open spec fn spec_items_tail(s: Seq<u8>, i: int) -> (Seq<Item>, int)
    decreases s.len() - i, 0int,
{
    if has_byte(s, i, COMMA) {
        match spec_data_item(s, i + 1) {
            Some((item, next)) => if i < next <= s.len() {
                let (rest, end) = spec_items_tail(s, next);
                (seq![item] + rest, end)
            } else {
                (Seq::empty(), i)
            },
            None => (Seq::empty(), i),
        }
    } else {
        (Seq::empty(), i)
    }
}

/// The data items at `i`, separated by commas, and where the last one ends.
pub open spec fn spec_items(s: Seq<u8>, i: int) -> (Seq<Item>, int)
    decreases s.len() - i, 5int,
{
    match spec_data_item(s, i) {
        Some((item, next)) => if i < next <= s.len() {
            let (rest, end) = spec_items_tail(s, next);
            (seq![item] + rest, end)
        } else {
            (Seq::empty(), i)
        },
        None => (Seq::empty(), i),
    }
}

/// The array at `i` that opens with `word`: layout, `word`, layout, data items and
/// `]`, behind a trailing comma where there are items.
pub open spec fn spec_array_of(s: Seq<u8>, i: int, word: Seq<u8>) -> Option<(Seq<Item>, int)>
    decreases s.len() - i, 0int,
{
    match spec_tag(s, run_end(s, i, Class::Layout), word) {
        Some(open) => {
            let first = run_end(s, open, Class::Layout);
            if i < first <= s.len() {
                let (items, next) = spec_items(s, first);
                match spec_opt_comma_tag(s, next, CLOSE_BRACKET, items.len() > 0) {
                    Some(end) => Some((items, end)),
                    None => None,
                }
            } else {
                None
            }
        },
        None => None,
    }
}

/// The definite-length array at `i`, behind `[`: its width is left to the encoder.
pub open spec fn spec_definite_array(s: Seq<u8>, i: int) -> Option<(Item, int)>
    decreases s.len() - i, 1int,
{
    match spec_array_of(s, i, "[".spec_bytes()) {
        Some((data, end)) => Some(
            (Item::Array { data, bitwidth: Some(IntegerWidth::Unknown) }, end),
        ),
        None => None,
    }
}

/// The indefinite-length array at `i`, behind `[_`: it has no width.
pub open spec fn spec_indefinite_array(s: Seq<u8>, i: int) -> Option<(Item, int)>
    decreases s.len() - i, 1int,
{
    match spec_array_of(s, i, "[_".spec_bytes()) {
        Some((data, end)) => Some((Item::Array { data, bitwidth: None }, end)),
        None => None,
    }
}

/// The array at `i`: definite, else indefinite.
pub open spec fn spec_array(s: Seq<u8>, i: int) -> Option<(Item, int)>
    decreases s.len() - i, 2int,
{
    or_else(spec_definite_array(s, i), spec_indefinite_array(s, i))
}

/// The key and the value at `i`: a data item, `:`, a data item.
pub open spec fn spec_pair(s: Seq<u8>, i: int) -> Option<((Item, Item), int)>
    decreases s.len() - i, 5int,
{
    match spec_data_item(s, i) {
        Some((key, colon)) => if i <= colon && has_byte(s, colon, COLON) {
            match spec_data_item(s, colon + 1) {
                Some((value, end)) => Some(((key, value), end)),
                None => None,
            }
        } else {
            None
        },
        None => None,
    }
}

/// The pairs behind a comma at `i`, each behind a comma of its own, and where the
/// last one ends.
pub open spec fn spec_pairs_tail(s: Seq<u8>, i: int) -> (Seq<(Item, Item)>, int)
    decreases s.len() - i, 0int,
{
    if has_byte(s, i, COMMA) {
        match spec_pair(s, i + 1) {
            Some((pair, next)) => if i < next <= s.len() {
                let (rest, end) = spec_pairs_tail(s, next);
                (seq![pair] + rest, end)
            } else {
                (Seq::empty(), i)
            },
            None => (Seq::empty(), i),
        }
    } else {
        (Seq::empty(), i)
    }
}

/// The pairs at `i`, separated by commas, and where the last one ends.
pub open spec fn spec_pairs(s: Seq<u8>, i: int) -> (Seq<(Item, Item)>, int)
    decreases s.len() - i, 6int,
{
    match spec_pair(s, i) {
        Some((pair, next)) => if i < next <= s.len() {
            let (rest, end) = spec_pairs_tail(s, next);
            (seq![pair] + rest, end)
        } else {
            (Seq::empty(), i)
        },
        None => (Seq::empty(), i),
    }
}

/// The map at `i` that opens with `word`: layout, `word`, layout, pairs and `}`,
/// behind a trailing comma where there are pairs.
pub open spec fn spec_map_of(s: Seq<u8>, i: int, word: Seq<u8>) -> Option<
    (Seq<(Item, Item)>, int),
>
    decreases s.len() - i, 0int,
{
    match spec_tag(s, run_end(s, i, Class::Layout), word) {
        Some(open) => {
            let first = run_end(s, open, Class::Layout);
            if i < first <= s.len() {
                let (pairs, next) = spec_pairs(s, first);
                match spec_opt_comma_tag(s, next, CLOSE_BRACE, pairs.len() > 0) {
                    Some(end) => Some((pairs, end)),
                    None => None,
                }
            } else {
                None
            }
        },
        None => None,
    }
}

/// The definite-length map at `i`, behind `{`: its width is left to the encoder.
pub open spec fn spec_definite_map(s: Seq<u8>, i: int) -> Option<(Item, int)>
    decreases s.len() - i, 1int,
{
    match spec_map_of(s, i, "{".spec_bytes()) {
        Some((data, end)) => Some(
            (Item::Mapping { data, bitwidth: Some(IntegerWidth::Unknown) }, end),
        ),
        None => None,
    }
}

/// The indefinite-length map at `i`, behind `{_`: it has no width.
pub open spec fn spec_indefinite_map(s: Seq<u8>, i: int) -> Option<(Item, int)>
    decreases s.len() - i, 1int,
{
    match spec_map_of(s, i, "{_".spec_bytes()) {
        Some((data, end)) => Some((Item::Mapping { data, bitwidth: None }, end)),
        None => None,
    }
}

/// The map at `i`: definite, else indefinite.
pub open spec fn spec_data_map(s: Seq<u8>, i: int) -> Option<(Item, int)>
    decreases s.len() - i, 2int,
{
    or_else(spec_definite_map(s, i), spec_indefinite_map(s, i))
}

/// The forms of a data item are tried in their order, and the first that is
/// matched gives the item.
pub proof fn lemma_alternatives(s: Seq<u8>, i: int)
    ensures
        spec_alternatives(s, i) == if spec_float(s, i) is Some {
            spec_float(s, i)
        } else if spec_tagged(s, i) is Some {
            spec_tagged(s, i)
        } else if spec_positive(s, i) is Some {
            spec_positive(s, i)
        } else if spec_negative(s, i) is Some {
            spec_negative(s, i)
        } else if spec_bytestring(s, i) is Some {
            spec_bytestring(s, i)
        } else if spec_textstring(s, i) is Some {
            spec_textstring(s, i)
        } else if spec_array(s, i) is Some {
            spec_array(s, i)
        } else if spec_data_map(s, i) is Some {
            spec_data_map(s, i)
        } else {
            spec_simple(s, i)
        },
{
}

/// Reads a data item and the layout around it.
pub fn data_item(input: &[u8], pos: usize) -> (r: Option<(DataItem, usize)>)
    requires
        pos <= input.len() <= usize::MAX / 8,
    ensures
        r matches Some((item, end)) ==> spec_data_item(input@, pos as int) == Some(
            (item@, end as int),
        ) && pos < end <= input.len(),
        r is None ==> spec_data_item(input@, pos as int) is None,
    decreases input.len() - pos, 4int,
{
    let start = ws(input, pos);
    match alternatives(input, start) {
        Some((item, end)) => Some((item, ws(input, end))),
        None => None,
    }
}

/// Reads a data item in the first of its forms that is matched.
fn alternatives(input: &[u8], pos: usize) -> (r: Option<(DataItem, usize)>)
    requires
        pos <= input.len() <= usize::MAX / 8,
    ensures
        r matches Some((item, end)) ==> spec_alternatives(input@, pos as int) == Some(
            (item@, end as int),
        ) && pos < end <= input.len(),
        r is None ==> spec_alternatives(input@, pos as int) is None,
    decreases input.len() - pos, 3int,
{
    if let Some(found) = float(input, pos) {
        return Some(found);
    }
    if let Some(found) = tagged(input, pos) {
        return Some(found);
    }
    if let Some(found) = positive(input, pos) {
        return Some(found);
    }
    if let Some(found) = negative(input, pos) {
        return Some(found);
    }
    if let Some(found) = bytestring(input, pos) {
        return Some(found);
    }
    if let Some(found) = textstring(input, pos) {
        return Some(found);
    }
    if let Some(found) = array(input, pos) {
        return Some(found);
    }
    if let Some(found) = data_map(input, pos) {
        return Some(found);
    }
    simple(input, pos)
}

/// Reads a tagged item.
pub fn tagged(input: &[u8], pos: usize) -> (r: Option<(DataItem, usize)>)
    requires
        pos <= input.len() <= usize::MAX / 8,
    ensures
        r matches Some((item, end)) ==> spec_tagged(input@, pos as int) == Some(
            (item@, end as int),
        ) && pos < end <= input.len(),
        r is None ==> spec_tagged(input@, pos as int) is None,
    decreases input.len() - pos, 0int,
{
    let ((number, bitwidth), open) = match integer(input, pos) {
        Some(found) => found,
        None => {
            return None;
        },
    };
    if !byte_at(input, open, OPEN_PAREN) {
        return None;
    }
    let (value, close) = match data_item(input, open + 1) {
        Some(found) => found,
        None => {
            return None;
        },
    };
    if !byte_at(input, close, CLOSE_PAREN) {
        return None;
    }
    let bitwidth = if bitwidth == IntegerWidth::Unknown && number <= 23 {
        IntegerWidth::Zero
    } else {
        bitwidth
    };
    Some((DataItem::Tag { tag: Tag(number), bitwidth, value: Box::new(value) }, close + 1))
}

/// Reads data items separated by commas.
fn items(input: &[u8], pos: usize) -> (r: (Vec<DataItem>, usize))
    requires
        pos <= input.len() <= usize::MAX / 8,
    ensures
        spec_items(input@, pos as int) == (models(r.0@), r.1 as int),
        pos <= r.1 <= input.len(),
    decreases input.len() - pos, 5int,
{
    let mut found: Vec<DataItem> = Vec::new();
    let (item, first_end) = match data_item(input, pos) {
        Some(parsed) => parsed,
        None => {
            assert(models(found@) == Seq::<Item>::empty());
            return (found, pos);
        },
    };
    let ghost first = item@;
    found.push(item);
    let mut end = first_end;
    assert(models(found@) == seq![first]);
    loop
        invariant
            pos < first_end <= end <= input.len() <= usize::MAX / 8,
            seq![first] + spec_items_tail(input@, first_end as int).0 == models(found@)
                + spec_items_tail(input@, end as int).0,
            spec_items_tail(input@, first_end as int).1 == spec_items_tail(input@, end as int).1,
        ensures
            spec_items_tail(input@, end as int) == (Seq::<Item>::empty(), end as int),
        decreases input.len() - end,
    {
        if !byte_at(input, end, COMMA) {
            break ;
        }
        match data_item(input, end + 1) {
            Some((item, next)) => {
                proof {
                    let rest = spec_items_tail(input@, next as int).0;
                    assert(models(found@) + (seq![item@] + rest) == models(found@.push(item))
                        + rest);
                }
                found.push(item);
                end = next;
            },
            None => {
                break ;
            },
        }
    }
    assert(models(found@) + Seq::<Item>::empty() == models(found@));
    (found, end)
}

/// Reads the items of an array between its opening word and `]`.
fn array_of(input: &[u8], pos: usize, word: &str) -> (r: Option<(Vec<DataItem>, usize)>)
    requires
        pos <= input.len() <= usize::MAX / 8,
        word.spec_bytes().len() > 0,
    ensures
        r matches Some((found, end)) ==> spec_array_of(input@, pos as int, word.spec_bytes())
            == Some((models(found@), end as int)) && pos < end <= input.len(),
        r is None ==> spec_array_of(input@, pos as int, word.spec_bytes()) is None,
    decreases input.len() - pos, 0int,
{
    let open = match tag(input, ws(input, pos), word) {
        Some(end) => end,
        None => {
            return None;
        },
    };
    let first = ws(input, open);
    let (found, next) = items(input, first);
    match opt_comma_tag(input, next, CLOSE_BRACKET, found.len() > 0) {
        Some(end) => Some((found, end)),
        None => None,
    }
}

/// Reads a definite-length array.
pub fn definite_array(input: &[u8], pos: usize) -> (r: Option<(DataItem, usize)>)
    requires
        pos <= input.len() <= usize::MAX / 8,
    ensures
        r matches Some((item, end)) ==> spec_definite_array(input@, pos as int) == Some(
            (item@, end as int),
        ) && pos < end <= input.len(),
        r is None ==> spec_definite_array(input@, pos as int) is None,
    decreases input.len() - pos, 1int,
{
    proof {
        reveal_strlit("[");
        is_ascii_chars_encode_utf8("["@);
    }
    match array_of(input, pos, "[") {
        Some((data, end)) => {
            let item = DataItem::Array { data, bitwidth: Some(IntegerWidth::Unknown) };
            proof {
                lemma_array_model(item);
            }
            Some((item, end))
        },
        None => None,
    }
}

/// Reads an indefinite-length array.
pub fn indefinite_array(input: &[u8], pos: usize) -> (r: Option<(DataItem, usize)>)
    requires
        pos <= input.len() <= usize::MAX / 8,
    ensures
        r matches Some((item, end)) ==> spec_indefinite_array(input@, pos as int) == Some(
            (item@, end as int),
        ) && pos < end <= input.len(),
        r is None ==> spec_indefinite_array(input@, pos as int) is None,
    decreases input.len() - pos, 1int,
{
    proof {
        reveal_strlit("[_");
        is_ascii_chars_encode_utf8("[_"@);
    }
    match array_of(input, pos, "[_") {
        Some((data, end)) => {
            let item = DataItem::Array { data, bitwidth: None };
            proof {
                lemma_array_model(item);
            }
            Some((item, end))
        },
        None => None,
    }
}

/// Reads an array, definite or indefinite.
pub fn array(input: &[u8], pos: usize) -> (r: Option<(DataItem, usize)>)
    requires
        pos <= input.len() <= usize::MAX / 8,
    ensures
        r matches Some((item, end)) ==> spec_array(input@, pos as int) == Some((item@, end as int))
            && pos < end <= input.len(),
        r is None ==> spec_array(input@, pos as int) is None,
    decreases input.len() - pos, 2int,
{
    match definite_array(input, pos) {
        Some(found) => Some(found),
        None => indefinite_array(input, pos),
    }
}

/// Reads a key, `:` and a value.
fn pair(input: &[u8], pos: usize) -> (r: Option<((DataItem, DataItem), usize)>)
    requires
        pos <= input.len() <= usize::MAX / 8,
    ensures
        r matches Some((found, end)) ==> spec_pair(input@, pos as int) == Some(
            ((found.0@, found.1@), end as int),
        ) && pos < end <= input.len(),
        r is None ==> spec_pair(input@, pos as int) is None,
    decreases input.len() - pos, 5int,
{
    let (key, colon) = match data_item(input, pos) {
        Some(found) => found,
        None => {
            return None;
        },
    };
    if !byte_at(input, colon, COLON) {
        return None;
    }
    match data_item(input, colon + 1) {
        Some((value, end)) => Some(((key, value), end)),
        None => None,
    }
}

/// Reads pairs separated by commas.
fn pairs(input: &[u8], pos: usize) -> (r: (Vec<(DataItem, DataItem)>, usize))
    requires
        pos <= input.len() <= usize::MAX / 8,
    ensures
        spec_pairs(input@, pos as int) == (pair_models(r.0@), r.1 as int),
        pos <= r.1 <= input.len(),
    decreases input.len() - pos, 6int,
{
    let mut found: Vec<(DataItem, DataItem)> = Vec::new();
    let (entry, first_end) = match pair(input, pos) {
        Some(parsed) => parsed,
        None => {
            assert(pair_models(found@) == Seq::<(Item, Item)>::empty());
            return (found, pos);
        },
    };
    let ghost first = (entry.0@, entry.1@);
    found.push(entry);
    let mut end = first_end;
    assert(pair_models(found@) == seq![first]);
    loop
        invariant
            pos < first_end <= end <= input.len() <= usize::MAX / 8,
            seq![first] + spec_pairs_tail(input@, first_end as int).0 == pair_models(found@)
                + spec_pairs_tail(input@, end as int).0,
            spec_pairs_tail(input@, first_end as int).1 == spec_pairs_tail(input@, end as int).1,
        ensures
            spec_pairs_tail(input@, end as int) == (Seq::<(Item, Item)>::empty(), end as int),
        decreases input.len() - end,
    {
        if !byte_at(input, end, COMMA) {
            break ;
        }
        match pair(input, end + 1) {
            Some((entry, next)) => {
                proof {
                    let rest = spec_pairs_tail(input@, next as int).0;
                    assert(pair_models(found@) + (seq![(entry.0@, entry.1@)] + rest)
                        == pair_models(found@.push(entry)) + rest);
                }
                found.push(entry);
                end = next;
            },
            None => {
                break ;
            },
        }
    }
    assert(pair_models(found@) + Seq::<(Item, Item)>::empty() == pair_models(found@));
    (found, end)
}

/// Reads the pairs of a map between its opening word and `}`.
fn map_of(input: &[u8], pos: usize, word: &str) -> (r: Option<
    (Vec<(DataItem, DataItem)>, usize),
>)
    requires
        pos <= input.len() <= usize::MAX / 8,
        word.spec_bytes().len() > 0,
    ensures
        r matches Some((found, end)) ==> spec_map_of(input@, pos as int, word.spec_bytes())
            == Some((pair_models(found@), end as int)) && pos < end <= input.len(),
        r is None ==> spec_map_of(input@, pos as int, word.spec_bytes()) is None,
    decreases input.len() - pos, 0int,
{
    let open = match tag(input, ws(input, pos), word) {
        Some(end) => end,
        None => {
            return None;
        },
    };
    let first = ws(input, open);
    let (found, next) = pairs(input, first);
    match opt_comma_tag(input, next, CLOSE_BRACE, found.len() > 0) {
        Some(end) => Some((found, end)),
        None => None,
    }
}

/// Reads a definite-length map.
pub fn definite_map(input: &[u8], pos: usize) -> (r: Option<(DataItem, usize)>)
    requires
        pos <= input.len() <= usize::MAX / 8,
    ensures
        r matches Some((item, end)) ==> spec_definite_map(input@, pos as int) == Some(
            (item@, end as int),
        ) && pos < end <= input.len(),
        r is None ==> spec_definite_map(input@, pos as int) is None,
    decreases input.len() - pos, 1int,
{
    proof {
        reveal_strlit("{");
        is_ascii_chars_encode_utf8("{"@);
    }
    match map_of(input, pos, "{") {
        Some((data, end)) => {
            let item = DataItem::Mapping { data, bitwidth: Some(IntegerWidth::Unknown) };
            proof {
                lemma_mapping_model(item);
            }
            Some((item, end))
        },
        None => None,
    }
}

/// Reads an indefinite-length map.
pub fn indefinite_map(input: &[u8], pos: usize) -> (r: Option<(DataItem, usize)>)
    requires
        pos <= input.len() <= usize::MAX / 8,
    ensures
        r matches Some((item, end)) ==> spec_indefinite_map(input@, pos as int) == Some(
            (item@, end as int),
        ) && pos < end <= input.len(),
        r is None ==> spec_indefinite_map(input@, pos as int) is None,
    decreases input.len() - pos, 1int,
{
    proof {
        reveal_strlit("{_");
        is_ascii_chars_encode_utf8("{_"@);
    }
    match map_of(input, pos, "{_") {
        Some((data, end)) => {
            let item = DataItem::Mapping { data, bitwidth: None };
            proof {
                lemma_mapping_model(item);
            }
            Some((item, end))
        },
        None => None,
    }
}

/// Reads a map, definite or indefinite.
pub fn data_map(input: &[u8], pos: usize) -> (r: Option<(DataItem, usize)>)
    requires
        pos <= input.len() <= usize::MAX / 8,
    ensures
        r matches Some((item, end)) ==> spec_data_map(input@, pos as int) == Some(
            (item@, end as int),
        ) && pos < end <= input.len(),
        r is None ==> spec_data_map(input@, pos as int) is None,
    decreases input.len() - pos, 2int,
{
    match definite_map(input, pos) {
        Some(found) => Some(found),
        None => indefinite_map(input, pos),
    }
}

/// A tagged item begins with a digit.
pub proof fn lemma_tagged_begins(s: Seq<u8>, i: int)
    requires
        0 <= i <= s.len(),
        spec_tagged(s, i) is Some,
    ensures
        i < s.len(),
        is_digit(s[i]),
{
    lemma_integer_begins(s, i);
}

/// An array begins, behind layout, with `[`.
pub proof fn lemma_array_begins(s: Seq<u8>, i: int)
    requires
        0 <= i <= s.len(),
        spec_array(s, i) is Some,
    ensures
        has_byte(s, run_end(s, i, Class::Layout), OPEN_BRACKET),
{
    reveal_strlit("[");
    reveal_strlit("[_");
    is_ascii_chars_encode_utf8("["@);
    is_ascii_chars_encode_utf8("[_"@);
    let j = run_end(s, i, Class::Layout);
    if spec_array_of(s, i, "[".spec_bytes()) is Some {
        lemma_tag_begins(s, j, "[".spec_bytes());
    } else {
        lemma_tag_begins(s, j, "[_".spec_bytes());
    }
}

/// A map begins, behind layout, with `{`.
pub proof fn lemma_data_map_begins(s: Seq<u8>, i: int)
    requires
        0 <= i <= s.len(),
        spec_data_map(s, i) is Some,
    ensures
        has_byte(s, run_end(s, i, Class::Layout), OPEN_BRACE),
{
    reveal_strlit("{");
    reveal_strlit("{_");
    is_ascii_chars_encode_utf8("{"@);
    is_ascii_chars_encode_utf8("{_"@);
    let j = run_end(s, i, Class::Layout);
    if spec_map_of(s, i, "{".spec_bytes()) is Some {
        lemma_tag_begins(s, j, "{".spec_bytes());
    } else {
        lemma_tag_begins(s, j, "{_".spec_bytes());
    }
}

/// A data item is not empty and ends inside the input.
pub proof fn lemma_data_item_ends(s: Seq<u8>, i: int)
    requires
        0 <= i <= s.len(),
        spec_data_item(s, i) is Some,
    ensures
        i < (spec_data_item(s, i)->0).1 <= s.len(),
    decreases s.len() - i, 4int,
{
    let start = run_end(s, i, Class::Layout);
    lemma_run_end(s, i, Class::Layout);
    lemma_alternatives_end(s, start);
    lemma_run_end(s, (spec_alternatives(s, start)->0).1, Class::Layout);
}

proof fn lemma_alternatives_end(s: Seq<u8>, i: int)
    requires
        0 <= i <= s.len(),
        spec_alternatives(s, i) is Some,
    ensures
        i < (spec_alternatives(s, i)->0).1 <= s.len(),
    decreases s.len() - i, 3int,
{
    lemma_alternatives(s, i);
    if spec_float(s, i) is Some {
        lemma_float_ends(s, i);
    } else if spec_tagged(s, i) is Some {
        lemma_tagged_ends(s, i);
    } else if spec_positive(s, i) is Some {
        reveal(spec_positive);
        lemma_integer_begins(s, i);
    } else if spec_negative(s, i) is Some {
        reveal(spec_negative);
        lemma_integer_begins(s, i + 1);
    } else if spec_bytestring(s, i) is Some {
        lemma_bytestring_ends(s, i);
    } else if spec_textstring(s, i) is Some {
        lemma_textstring_ends(s, i);
    } else if spec_array(s, i) is Some {
        reveal_strlit("[");
        reveal_strlit("[_");
        is_ascii_chars_encode_utf8("["@);
        is_ascii_chars_encode_utf8("[_"@);
        if spec_array_of(s, i, "[".spec_bytes()) is Some {
            lemma_array_of_ends(s, i, "[".spec_bytes());
        } else {
            lemma_array_of_ends(s, i, "[_".spec_bytes());
        }
    } else if spec_data_map(s, i) is Some {
        reveal_strlit("{");
        reveal_strlit("{_");
        is_ascii_chars_encode_utf8("{"@);
        is_ascii_chars_encode_utf8("{_"@);
        if spec_map_of(s, i, "{".spec_bytes()) is Some {
            lemma_map_of_ends(s, i, "{".spec_bytes());
        } else {
            lemma_map_of_ends(s, i, "{_".spec_bytes());
        }
    } else {
        lemma_simple_ends(s, i);
    }
}

proof fn lemma_tagged_ends(s: Seq<u8>, i: int)
    requires
        0 <= i <= s.len(),
        spec_tagged(s, i) is Some,
    ensures
        i < (spec_tagged(s, i)->0).1 <= s.len(),
    decreases s.len() - i, 0int,
{
    lemma_integer_begins(s, i);
    lemma_data_item_ends(s, (spec_integer(s, i)->0).1 + 1);
}

proof fn lemma_items_tail_ends(s: Seq<u8>, i: int)
    requires
        0 <= i <= s.len(),
    ensures
        i <= spec_items_tail(s, i).1 <= s.len(),
    decreases s.len() - i, 0int,
{
    if has_byte(s, i, COMMA) {
        if let Some((item, next)) = spec_data_item(s, i + 1) {
            lemma_data_item_ends(s, i + 1);
            lemma_items_tail_ends(s, next);
        }
    }
}

proof fn lemma_items_end(s: Seq<u8>, i: int)
    requires
        0 <= i <= s.len(),
    ensures
        i <= spec_items(s, i).1 <= s.len(),
    decreases s.len() - i, 5int,
{
    if let Some((item, next)) = spec_data_item(s, i) {
        lemma_data_item_ends(s, i);
        lemma_items_tail_ends(s, next);
    }
}

proof fn lemma_array_of_ends(s: Seq<u8>, i: int, word: Seq<u8>)
    requires
        0 <= i <= s.len(),
        word.len() > 0,
        spec_array_of(s, i, word) is Some,
    ensures
        i < (spec_array_of(s, i, word)->0).1 <= s.len(),
    decreases s.len() - i, 0int,
{
    lemma_run_end(s, i, Class::Layout);
    let open = spec_tag(s, run_end(s, i, Class::Layout), word)->0;
    lemma_run_end(s, open, Class::Layout);
    let first = run_end(s, open, Class::Layout);
    lemma_items_end(s, first);
    lemma_run_end(s, spec_items(s, first).1 + 1, Class::Layout);
}

proof fn lemma_pair_ends(s: Seq<u8>, i: int)
    requires
        0 <= i <= s.len(),
        spec_pair(s, i) is Some,
    ensures
        i < (spec_pair(s, i)->0).1 <= s.len(),
    decreases s.len() - i, 5int,
{
    lemma_data_item_ends(s, i);
    lemma_data_item_ends(s, (spec_data_item(s, i)->0).1 + 1);
}

proof fn lemma_pairs_tail_ends(s: Seq<u8>, i: int)
    requires
        0 <= i <= s.len(),
    ensures
        i <= spec_pairs_tail(s, i).1 <= s.len(),
    decreases s.len() - i, 0int,
{
    if has_byte(s, i, COMMA) {
        if let Some((pair, next)) = spec_pair(s, i + 1) {
            lemma_pair_ends(s, i + 1);
            lemma_pairs_tail_ends(s, next);
        }
    }
}

proof fn lemma_pairs_end(s: Seq<u8>, i: int)
    requires
        0 <= i <= s.len(),
    ensures
        i <= spec_pairs(s, i).1 <= s.len(),
    decreases s.len() - i, 6int,
{
    if let Some((pair, next)) = spec_pair(s, i) {
        lemma_pair_ends(s, i);
        lemma_pairs_tail_ends(s, next);
    }
}

proof fn lemma_map_of_ends(s: Seq<u8>, i: int, word: Seq<u8>)
    requires
        0 <= i <= s.len(),
        word.len() > 0,
        spec_map_of(s, i, word) is Some,
    ensures
        i < (spec_map_of(s, i, word)->0).1 <= s.len(),
    decreases s.len() - i, 0int,
{
    lemma_run_end(s, i, Class::Layout);
    let open = spec_tag(s, run_end(s, i, Class::Layout), word)->0;
    lemma_run_end(s, open, Class::Layout);
    let first = run_end(s, open, Class::Layout);
    lemma_pairs_end(s, first);
    lemma_run_end(s, spec_pairs(s, first).1 + 1, Class::Layout);
}

} // verus!
