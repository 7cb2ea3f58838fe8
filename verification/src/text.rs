//! Text strings: the quoted literal, its concatenation with further literals, and
//! the indefinite-length form.

use crate::bytes::{
    definite_bytestring, escaped, lemma_definite_bytestring_ends, lemma_escaped_ends,
    spec_definite_bytestring, spec_raw,
};
use crate::codec::string_from_utf8;
use crate::item::{DataItem, IntegerWidth, Item, Text, TextString};
use crate::lexical::{
    byte_at, has_byte, lemma_run_end, lemma_tag_begins, opt_comma_tag, or_else, run_end,
    spec_opt_comma_tag, spec_tag, tag, ws, Class, CLOSE_PAREN, COMMA, DOUBLE_QUOTE, OPEN_PAREN,
};
use vstd::prelude::*;
use vstd::string::*;
use vstd::utf8::*;

verus! {

/// The bytes of one text string literal at `i`, with the layout around it.
pub open spec fn spec_definite_textstring(s: Seq<u8>, i: int) -> Option<(Seq<u8>, int)> {
    match spec_raw(s, run_end(s, i, Class::Layout), DOUBLE_QUOTE) {
        Some((bytes, end)) => Some((bytes, run_end(s, end, Class::Layout))),
        None => None,
    }
}

/// A piece that may follow a text string literal: a byte string literal, else a
/// text string literal.
pub open spec fn spec_piece(s: Seq<u8>, i: int) -> Option<(Seq<u8>, int)> {
    or_else(spec_definite_bytestring(s, i), spec_definite_textstring(s, i))
}

/// The bytes of the pieces that follow one another from `i` on, and where they end.
pub open spec fn spec_more_pieces(s: Seq<u8>, i: int) -> (Seq<u8>, int)
    decreases s.len() - i,
{
    match spec_piece(s, i) {
        Some((bytes, next)) => if i < next <= s.len() {
            let (rest, end) = spec_more_pieces(s, next);
            (bytes + rest, end)
        } else {
            (Seq::empty(), i)
        },
        None => (Seq::empty(), i),
    }
}

/// A text string literal at `i` and the pieces behind it, joined into one text
/// string of unknown width. There is none where the joined bytes are not UTF-8.
pub open spec fn spec_concatenated_definite_textstring(s: Seq<u8>, i: int) -> Option<(Text, int)> {
    match spec_definite_textstring(s, i) {
        Some((bytes, next)) => {
            let (rest, end) = spec_more_pieces(s, next);
            if valid_utf8(bytes + rest) {
                let data = decode_utf8(bytes + rest);
                Some((Text { data, bitwidth: IntegerWidth::Unknown }, end))
            } else {
                None
            }
        },
        None => None,
    }
}

/// The chunks behind a comma at `i`, each behind a comma of its own, and where the
/// last one ends.
pub open spec fn spec_textstring_list_tail(s: Seq<u8>, i: int) -> (Seq<Text>, int)
    decreases s.len() - i,
{
    if has_byte(s, i, COMMA) {
        match spec_concatenated_definite_textstring(s, i + 1) {
            Some((chunk, next)) => if i < next <= s.len() {
                let (rest, end) = spec_textstring_list_tail(s, next);
                (seq![chunk] + rest, end)
            } else {
                (Seq::empty(), i)
            },
            None => (Seq::empty(), i),
        }
    } else {
        (Seq::empty(), i)
    }
}

/// The chunks at `i`, separated by commas, and where the last one ends.
pub open spec fn spec_textstring_list(s: Seq<u8>, i: int) -> (Seq<Text>, int) {
    match spec_concatenated_definite_textstring(s, i) {
        Some((chunk, next)) => {
            let (rest, end) = spec_textstring_list_tail(s, next);
            (seq![chunk] + rest, end)
        },
        None => (Seq::empty(), i),
    }
}

/// The indefinite-length text string at `i`: `(_`, chunks, `)`.
pub open spec fn spec_indefinite_textstring(s: Seq<u8>, i: int) -> Option<(Item, int)> {
    match spec_tag(s, i, "(_".spec_bytes()) {
        Some(open) => {
            let (chunks, next) = spec_textstring_list(s, open);
            match spec_opt_comma_tag(s, next, CLOSE_PAREN, chunks.len() > 0) {
                Some(end) => Some((Item::IndefiniteTextString(chunks), end)),
                None => None,
            }
        },
        None => None,
    }
}

/// The text string at `i`: definite where a literal stands there, else indefinite.
#[verifier::opaque]
pub open spec fn spec_textstring(s: Seq<u8>, i: int) -> Option<(Item, int)> {
    match spec_concatenated_definite_textstring(s, i) {
        Some((text, end)) => Some((Item::TextString(text), end)),
        None => spec_indefinite_textstring(s, i),
    }
}

/// Reads the bytes of one text string literal and the layout around it.
pub fn definite_textstring(input: &[u8], pos: usize) -> (r: Option<(Vec<u8>, usize)>)
    requires
        pos <= input.len(),
    ensures
        r matches Some((bytes, end)) ==> spec_definite_textstring(input@, pos as int) == Some(
            (bytes@, end as int),
        ) && pos < end <= input.len(),
        r is None ==> spec_definite_textstring(input@, pos as int) is None,
{
    let start = ws(input, pos);
    if !byte_at(input, start, DOUBLE_QUOTE) {
        return None;
    }
    match escaped(input, start + 1, DOUBLE_QUOTE) {
        Some((bytes, end)) => Some((bytes, ws(input, end))),
        None => None,
    }
}

/// Reads a piece that follows a text string literal.
fn piece(input: &[u8], pos: usize) -> (r: Option<(Vec<u8>, usize)>)
    requires
        pos <= input.len() <= usize::MAX / 8,
    ensures
        r matches Some((bytes, end)) ==> spec_piece(input@, pos as int) == Some(
            (bytes@, end as int),
        ) && pos < end <= input.len(),
        r is None ==> spec_piece(input@, pos as int) is None,
{
    match definite_bytestring(input, pos) {
        Some(found) => Some(found),
        None => definite_textstring(input, pos),
    }
}

/// Reads a text string literal and the pieces behind it, and joins them.
pub fn concatenated_definite_textstring(input: &[u8], pos: usize) -> (r: Option<
    (TextString, usize),
>)
    requires
        pos <= input.len() <= usize::MAX / 8,
    ensures
        r matches Some((text, end)) ==> spec_concatenated_definite_textstring(
            input@,
            pos as int,
        ) == Some((text@, end as int)) && pos < end <= input.len(),
        r is None ==> spec_concatenated_definite_textstring(input@, pos as int) is None,
{
    let (mut data, first_end) = match definite_textstring(input, pos) {
        Some(found) => found,
        None => {
            return None;
        },
    };
    let ghost first = data@;
    let mut end = first_end;
    loop
        invariant
            pos < first_end <= end <= input.len() <= usize::MAX / 8,
            first + spec_more_pieces(input@, first_end as int).0 == data@ + spec_more_pieces(
                input@,
                end as int,
            ).0,
            spec_more_pieces(input@, first_end as int).1 == spec_more_pieces(input@, end as int).1,
        ensures
            spec_piece(input@, end as int) is None,
        decreases input.len() - end,
    {
        match piece(input, end) {
            Some((mut bytes, next)) => {
                proof {
                    let rest = spec_more_pieces(input@, next as int).0;
                    assert(data@ + (bytes@ + rest) == (data@ + bytes@) + rest);
                }
                data.append(&mut bytes);
                end = next;
            },
            None => {
                break ;
            },
        }
    }
    assert(data@ + Seq::<u8>::empty() == data@);
    match string_from_utf8(data) {
        Some(text) => Some((TextString { data: text, bitwidth: IntegerWidth::Unknown }, end)),
        None => None,
    }
}

/// The models of text strings.
pub open spec fn chunk_models(chunks: Seq<TextString>) -> Seq<Text> {
    chunks.map_values(|chunk: TextString| chunk@)
}

/// Reads the chunks of an indefinite-length text string.
fn textstring_list(input: &[u8], pos: usize) -> (r: (Vec<TextString>, usize))
    requires
        pos <= input.len() <= usize::MAX / 8,
    ensures
        spec_textstring_list(input@, pos as int) == (chunk_models(r.0@), r.1 as int),
        pos <= r.1 <= input.len(),
{
    let mut chunks: Vec<TextString> = Vec::new();
    let (chunk, first_end) = match concatenated_definite_textstring(input, pos) {
        Some(found) => found,
        None => {
            assert(chunk_models(chunks@) == Seq::<Text>::empty());
            return (chunks, pos);
        },
    };
    let ghost first = chunk@;
    chunks.push(chunk);
    let mut end = first_end;
    assert(chunk_models(chunks@) == seq![first]);
    loop
        invariant
            pos < first_end <= end <= input.len() <= usize::MAX / 8,
            seq![first] + spec_textstring_list_tail(input@, first_end as int).0 == chunk_models(
                chunks@,
            ) + spec_textstring_list_tail(input@, end as int).0,
            spec_textstring_list_tail(input@, first_end as int).1 == spec_textstring_list_tail(
                input@,
                end as int,
            ).1,
        ensures
            spec_textstring_list_tail(input@, end as int) == (Seq::<Text>::empty(), end as int),
        decreases input.len() - end,
    {
        if !byte_at(input, end, COMMA) {
            break ;
        }
        match concatenated_definite_textstring(input, end + 1) {
            Some((chunk, next)) => {
                proof {
                    let rest = spec_textstring_list_tail(input@, next as int).0;
                    assert(chunk_models(chunks@) + (seq![chunk@] + rest) == chunk_models(
                        chunks@.push(chunk),
                    ) + rest);
                }
                chunks.push(chunk);
                end = next;
            },
            None => {
                break ;
            },
        }
    }
    assert(chunk_models(chunks@) + Seq::<Text>::empty() == chunk_models(chunks@));
    (chunks, end)
}

/// Reads an indefinite-length text string.
pub fn indefinite_textstring(input: &[u8], pos: usize) -> (r: Option<(DataItem, usize)>)
    requires
        pos <= input.len() <= usize::MAX / 8,
    ensures
        r matches Some((item, end)) ==> spec_indefinite_textstring(input@, pos as int) == Some(
            (item@, end as int),
        ) && pos < end <= input.len(),
        r is None ==> spec_indefinite_textstring(input@, pos as int) is None,
{
    let open = match tag(input, pos, "(_") {
        Some(end) => end,
        None => {
            return None;
        },
    };
    let (chunks, next) = textstring_list(input, open);
    match opt_comma_tag(input, next, CLOSE_PAREN, chunks.len() > 0) {
        Some(end) => Some((DataItem::IndefiniteTextString(chunks), end)),
        None => None,
    }
}

/// Reads a text string, definite or indefinite.
pub fn textstring(input: &[u8], pos: usize) -> (r: Option<(DataItem, usize)>)
    requires
        pos <= input.len() <= usize::MAX / 8,
    ensures
        r matches Some((item, end)) ==> spec_textstring(input@, pos as int) == Some(
            (item@, end as int),
        ) && pos < end <= input.len(),
        r is None ==> spec_textstring(input@, pos as int) is None,
{
    reveal(spec_textstring);
    match concatenated_definite_textstring(input, pos) {
        Some((text, end)) => Some((DataItem::TextString(text), end)),
        None => indefinite_textstring(input, pos),
    }
}

/// A text string begins, behind layout, with a double quote or `(`.
pub proof fn lemma_textstring_begins(s: Seq<u8>, i: int)
    requires
        0 <= i <= s.len(),
        spec_textstring(s, i) is Some,
    ensures
        run_end(s, i, Class::Layout) < s.len(),
        ({
            let b = s[run_end(s, i, Class::Layout)];
            b == DOUBLE_QUOTE || b == OPEN_PAREN
        }),
{
    reveal(spec_textstring);
    reveal_strlit("(_");
    is_ascii_chars_encode_utf8("(_"@);
    lemma_run_end(s, i, Class::Layout);
    if spec_concatenated_definite_textstring(s, i) is None {
        lemma_tag_begins(s, i, "(_".spec_bytes());
        assert(run_end(s, i, Class::Layout) == i);
    }
}

/// A text string literal is not empty and ends inside the input.
pub proof fn lemma_definite_textstring_ends(s: Seq<u8>, i: int)
    requires
        0 <= i <= s.len(),
        spec_definite_textstring(s, i) is Some,
    ensures
        i < (spec_definite_textstring(s, i)->0).1 <= s.len(),
{
    let start = run_end(s, i, Class::Layout);
    lemma_run_end(s, i, Class::Layout);
    lemma_escaped_ends(s, start + 1, DOUBLE_QUOTE);
    lemma_run_end(s, (spec_raw(s, start, DOUBLE_QUOTE)->0).1, Class::Layout);
}

/// Pieces that follow one another end inside the input.
proof fn lemma_more_pieces_end(s: Seq<u8>, i: int)
    requires
        0 <= i <= s.len(),
    ensures
        i <= spec_more_pieces(s, i).1 <= s.len(),
    decreases s.len() - i,
{
    if let Some((bytes, next)) = spec_piece(s, i) {
        if spec_definite_bytestring(s, i) is Some {
            lemma_definite_bytestring_ends(s, i);
        } else {
            lemma_definite_textstring_ends(s, i);
        }
        lemma_more_pieces_end(s, next);
    }
}

/// A joined text string is not empty and ends inside the input.
pub proof fn lemma_concatenated_definite_textstring_ends(s: Seq<u8>, i: int)
    requires
        0 <= i <= s.len(),
        spec_concatenated_definite_textstring(s, i) is Some,
    ensures
        i < (spec_concatenated_definite_textstring(s, i)->0).1 <= s.len(),
{
    lemma_definite_textstring_ends(s, i);
    lemma_more_pieces_end(s, (spec_definite_textstring(s, i)->0).1);
}

/// The chunks of an indefinite-length text string end inside the input.
proof fn lemma_textstring_list_tail_ends(s: Seq<u8>, i: int)
    requires
        0 <= i <= s.len(),
    ensures
        i <= spec_textstring_list_tail(s, i).1 <= s.len(),
    decreases s.len() - i,
{
    if has_byte(s, i, COMMA) {
        if let Some((chunk, next)) = spec_concatenated_definite_textstring(s, i + 1) {
            lemma_concatenated_definite_textstring_ends(s, i + 1);
            lemma_textstring_list_tail_ends(s, next);
        }
    }
}

/// A text string is not empty and ends inside the input.
pub proof fn lemma_textstring_ends(s: Seq<u8>, i: int)
    requires
        0 <= i <= s.len(),
        spec_textstring(s, i) is Some,
    ensures
        i < (spec_textstring(s, i)->0).1 <= s.len(),
{
    reveal(spec_textstring);
    if spec_concatenated_definite_textstring(s, i) is Some {
        lemma_concatenated_definite_textstring_ends(s, i);
    } else {
        let open = spec_tag(s, i, "(_".spec_bytes())->0;
        if let Some((chunk, next)) = spec_concatenated_definite_textstring(s, open) {
            lemma_concatenated_definite_textstring_ends(s, open);
            lemma_textstring_list_tail_ends(s, next);
        }
        lemma_run_end(s, spec_textstring_list(s, open).1 + 1, Class::Layout);
    }
}

} // verus!
