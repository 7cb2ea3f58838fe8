//! Byte strings: encoded and raw literals, their concatenation, and the
//! indefinite-length form.

use crate::codec::{
    base16_decoded, base32_decoded, base32hex_decoded, base64_decoded, base64url_decoded,
    decode_base16, decode_base32, decode_base32hex, decode_base64, decode_base64url,
};
use crate::item::{ByteString, Bytes, DataItem, IntegerWidth, Item};
use crate::lexical::{
    all_of, byte_at, has_byte, is_layout, lemma_run_covers, lemma_run_end, lemma_tag_begins,
    opt_comma_tag, or_else, run_end, scan, spec_opt_comma_tag, spec_tag, strip_layout, tag,
    without_layout, ws, Class, BACKSLASH, CLOSE_PAREN, COMMA, LOWER_B, LOWER_H,
    OPEN_PAREN, QUOTE,
};
use vstd::prelude::*;
use vstd::slice::slice_subrange;
use vstd::string::*;
use vstd::utf8::*;

verus! {

/// The body of an encoded literal at `i` and the position behind the literal:
/// `prefix`, a quote, a run of bytes of `class`, a quote.
pub open spec fn spec_encoded(s: Seq<u8>, i: int, prefix: Seq<u8>, class: Class) -> Option<
    (Seq<u8>, int),
> {
    match spec_tag(s, i, prefix) {
        Some(open) => {
            let close = run_end(s, open + 1, class);
            if has_byte(s, open, QUOTE) && has_byte(s, close, QUOTE) {
                Some((s.subrange(open + 1, close), close + 1))
            } else {
                None
            }
        },
        None => None,
    }
}

/// A body that was decoded, with the position behind its literal.
pub open spec fn decoded_at(decoded: Option<Seq<u8>>, end: int) -> Option<(Seq<u8>, int)> {
    match decoded {
        Some(bytes) => Some((bytes, end)),
        None => None,
    }
}

/// The literal `h'..'` at `i`, in base16. Layout in the body counts for nothing.
pub open spec fn spec_base16(s: Seq<u8>, i: int) -> Option<(Seq<u8>, int)> {
    match spec_encoded(s, i, "h".spec_bytes(), Class::Base16) {
        Some((body, end)) => decoded_at(base16_decoded(without_layout(body)), end),
        None => None,
    }
}

/// The literal `b32'..'` at `i`, in base32. Layout in the body counts for nothing.
pub open spec fn spec_base32(s: Seq<u8>, i: int) -> Option<(Seq<u8>, int)> {
    match spec_encoded(s, i, "b32".spec_bytes(), Class::Base32) {
        Some((body, end)) => decoded_at(base32_decoded(without_layout(body)), end),
        None => None,
    }
}

/// The literal `h32'..'` at `i`, in base32 with the extended hexadecimal alphabet.
/// Layout in the body counts for nothing.
pub open spec fn spec_base32hex(s: Seq<u8>, i: int) -> Option<(Seq<u8>, int)> {
    match spec_encoded(s, i, "h32".spec_bytes(), Class::Base32Hex) {
        Some((body, end)) => decoded_at(base32hex_decoded(without_layout(body)), end),
        None => None,
    }
}

/// The literal `b64'..'` at `i`, in base64 with the URL-safe alphabet, unpadded.
/// Layout in the body counts for nothing.
pub open spec fn spec_base64url(s: Seq<u8>, i: int) -> Option<(Seq<u8>, int)> {
    match spec_encoded(s, i, "b64".spec_bytes(), Class::Base64Url) {
        Some((body, end)) => decoded_at(base64url_decoded(without_layout(body)), end),
        None => None,
    }
}

/// The literal `b64'..'` at `i`, in padded base64. Layout in the body counts for
/// nothing.
pub open spec fn spec_base64(s: Seq<u8>, i: int) -> Option<(Seq<u8>, int)> {
    match spec_encoded(s, i, "b64".spec_bytes(), Class::Base64) {
        Some((body, end)) => decoded_at(base64_decoded(without_layout(body)), end),
        None => None,
    }
}

/// More bytes in front of what follows them.
pub open spec fn prepend(front: Seq<u8>, rest: Option<(Seq<u8>, int)>) -> Option<(Seq<u8>, int)> {
    match rest {
        Some((bytes, end)) => Some((front + bytes, end)),
        None => None,
    }
}

/// The bytes from `i` up to the closing `quote`, and the position behind that quote.
/// A backslash stands before a backslash or a quote that is meant as itself, and
/// nowhere else.
pub open spec fn spec_escaped(s: Seq<u8>, i: int, quote: u8) -> Option<(Seq<u8>, int)>
    decreases s.len() - i,
{
    if !(0 <= i < s.len()) {
        None
    } else if s[i] == quote {
        Some((Seq::empty(), i + 1))
    } else if s[i] == BACKSLASH {
        if i + 1 < s.len() && (s[i + 1] == BACKSLASH || s[i + 1] == quote) {
            prepend(seq![s[i + 1]], spec_escaped(s, i + 2, quote))
        } else {
            None
        }
    } else {
        prepend(seq![s[i]], spec_escaped(s, i + 1, quote))
    }
}

/// The raw literal at `i`: between two bytes `quote`, bytes as they stand but for
/// the escapes.
pub open spec fn spec_raw(s: Seq<u8>, i: int, quote: u8) -> Option<(Seq<u8>, int)> {
    if has_byte(s, i, quote) {
        spec_escaped(s, i + 1, quote)
    } else {
        None
    }
}

/// The literal at `i`, in the first of its six forms that is matched and decoded.
pub open spec fn spec_literal(s: Seq<u8>, i: int) -> Option<(Seq<u8>, int)> {
    or_else(
        spec_base16(s, i),
        or_else(
            spec_base32(s, i),
            or_else(
                spec_base32hex(s, i),
                or_else(
                    spec_base64url(s, i),
                    or_else(spec_base64(s, i), spec_raw(s, i, QUOTE)),
                ),
            ),
        ),
    )
}

/// One definite byte string literal at `i`, with the layout around it.
pub open spec fn spec_definite_bytestring(s: Seq<u8>, i: int) -> Option<(Seq<u8>, int)> {
    match spec_literal(s, run_end(s, i, Class::Layout)) {
        Some((bytes, end)) => Some((bytes, run_end(s, end, Class::Layout))),
        None => None,
    }
}

/// The bytes of the literals that follow one another from `i` on, and where they end.
/// The bounds on `next` are there for the recursion: a literal always meets them.
pub open spec fn spec_more_bytestrings(s: Seq<u8>, i: int) -> (Seq<u8>, int)
    decreases s.len() - i,
{
    match spec_definite_bytestring(s, i) {
        Some((bytes, next)) => if i < next <= s.len() {
            let (rest, end) = spec_more_bytestrings(s, next);
            (bytes + rest, end)
        } else {
            (Seq::empty(), i)
        },
        None => (Seq::empty(), i),
    }
}

/// One or more literals at `i`, joined into one byte string of unknown width.
pub open spec fn spec_concatenated_definite_bytestring(s: Seq<u8>, i: int) -> Option<(Bytes, int)> {
    match spec_definite_bytestring(s, i) {
        Some((bytes, next)) => {
            let (rest, end) = spec_more_bytestrings(s, next);
            Some((Bytes { data: bytes + rest, bitwidth: IntegerWidth::Unknown }, end))
        },
        None => None,
    }
}

/// The chunks behind a comma at `i`, each behind a comma of its own, and where the
/// last one ends.
pub open spec fn spec_bytestring_list_tail(s: Seq<u8>, i: int) -> (Seq<Bytes>, int)
    decreases s.len() - i,
{
    if has_byte(s, i, COMMA) {
        match spec_concatenated_definite_bytestring(s, i + 1) {
            Some((chunk, next)) => if i < next <= s.len() {
                let (rest, end) = spec_bytestring_list_tail(s, next);
                (seq![chunk] + rest, end)
            } else {
                (Seq::empty(), i)
            },
            None => (Seq::empty(), i),
        }
    } else {
        (Seq::empty(), i)
    }
}

/// The chunks at `i`, separated by commas, and where the last one ends.
pub open spec fn spec_bytestring_list(s: Seq<u8>, i: int) -> (Seq<Bytes>, int) {
    match spec_concatenated_definite_bytestring(s, i) {
        Some((chunk, next)) => {
            let (rest, end) = spec_bytestring_list_tail(s, next);
            (seq![chunk] + rest, end)
        },
        None => (Seq::empty(), i),
    }
}

/// The indefinite-length byte string at `i`: `(_`, chunks, `)`.
pub open spec fn spec_indefinite_bytestring(s: Seq<u8>, i: int) -> Option<(Item, int)> {
    match spec_tag(s, i, "(_".spec_bytes()) {
        Some(open) => {
            let (chunks, next) = spec_bytestring_list(s, open);
            match spec_opt_comma_tag(s, next, CLOSE_PAREN, chunks.len() > 0) {
                Some(end) => Some((Item::IndefiniteByteString(chunks), end)),
                None => None,
            }
        },
        None => None,
    }
}

/// The byte string at `i`: definite where literals stand there, else indefinite.
#[verifier::opaque]
pub open spec fn spec_bytestring(s: Seq<u8>, i: int) -> Option<(Item, int)> {
    match spec_concatenated_definite_bytestring(s, i) {
        Some((bytes, end)) => Some((Item::ByteString(bytes), end)),
        None => spec_indefinite_bytestring(s, i),
    }
}

/// Finds the body of an encoded literal.
fn encoded<'a>(input: &'a [u8], pos: usize, prefix: &str, class: Class) -> (r: Option<
    (&'a [u8], usize),
>)
    requires
        pos <= input.len(),
    ensures
        r matches Some((body, end)) ==> spec_encoded(
            input@,
            pos as int,
            prefix.spec_bytes(),
            class,
        ) == Some((body@, end as int)) && pos < end <= input.len() && body@.len() <= input@.len(),
        r is None ==> spec_encoded(input@, pos as int, prefix.spec_bytes(), class) is None,
{
    let open = match tag(input, pos, prefix) {
        Some(end) => end,
        None => {
            return None;
        },
    };
    if !byte_at(input, open, QUOTE) {
        return None;
    }
    let close = scan(input, open + 1, class);
    if !byte_at(input, close, QUOTE) {
        return None;
    }
    Some((slice_subrange(input, open + 1, close), close + 1))
}

/// The literal whose body a decoder was given: the bytes that it made of the body,
/// with the position behind the literal, or none where it refused the body.
pub fn decoded_literal(decoded: Option<Vec<u8>>, end: usize) -> (r: Option<(Vec<u8>, usize)>)
    ensures
        r matches Some((bytes, at)) ==> decoded matches Some(made) && decoded_at(
            Some(made@),
            end as int,
        ) == Some((bytes@, at as int)),
        r is None ==> decoded is None,
{
    match decoded {
        Some(bytes) => Some((bytes, end)),
        None => None,
    }
}

/// Reads the bytes up to the closing quote, with the escapes taken out.
pub fn escaped(input: &[u8], pos: usize, quote: u8) -> (r: Option<(Vec<u8>, usize)>)
    requires
        pos <= input.len(),
    ensures
        r matches Some((bytes, end)) ==> spec_escaped(input@, pos as int, quote) == Some(
            (bytes@, end as int),
        ) && pos < end <= input.len(),
        r is None ==> spec_escaped(input@, pos as int, quote) is None,
{
    let mut bytes: Vec<u8> = Vec::new();
    let mut k = pos;
    while k < input.len()
        invariant
            pos <= k <= input.len(),
            spec_escaped(input@, pos as int, quote) == prepend(
                bytes@,
                spec_escaped(input@, k as int, quote),
            ),
        decreases input.len() - k,
    {
        let b = input[k];
        if b == quote {
            assert(bytes@ + Seq::<u8>::empty() == bytes@);
            return Some((bytes, k + 1));
        }
        let ghost before = bytes@;
        if b == BACKSLASH {
            if k + 1 < input.len() && (input[k + 1] == BACKSLASH || input[k + 1] == quote) {
                bytes.push(input[k + 1]);
                k += 2;
            } else {
                return None;
            }
        } else {
            bytes.push(b);
            k += 1;
        }
        proof {
            let rest = spec_escaped(input@, k as int, quote);
            if let Some((tail, end)) = rest {
                assert(before + (seq![bytes@.last()] + tail) == bytes@ + tail);
            }
        }
    }
    None
}

/// Reads one definite byte string literal and the layout around it.
pub fn definite_bytestring(input: &[u8], pos: usize) -> (r: Option<(Vec<u8>, usize)>)
    requires
        pos <= input.len() <= usize::MAX / 8,
    ensures
        r matches Some((bytes, end)) ==> spec_definite_bytestring(input@, pos as int) == Some(
            (bytes@, end as int),
        ) && pos < end <= input.len(),
        r is None ==> spec_definite_bytestring(input@, pos as int) is None,
{
    let start = ws(input, pos);
    let mut found: Option<(Vec<u8>, usize)> = None;
    if let Some((body, end)) = encoded(input, start, "h", Class::Base16) {
        found = decoded_literal(decode_base16(strip_layout(body).as_slice()), end);
    }
    if found.is_none() {
        if let Some((body, end)) = encoded(input, start, "b32", Class::Base32) {
            found = decoded_literal(decode_base32(strip_layout(body).as_slice()), end);
        }
    }
    if found.is_none() {
        if let Some((body, end)) = encoded(input, start, "h32", Class::Base32Hex) {
            found = decoded_literal(decode_base32hex(strip_layout(body).as_slice()), end);
        }
    }
    if found.is_none() {
        if let Some((body, end)) = encoded(input, start, "b64", Class::Base64Url) {
            found = decoded_literal(decode_base64url(strip_layout(body).as_slice()), end);
        }
    }
    if found.is_none() {
        if let Some((body, end)) = encoded(input, start, "b64", Class::Base64) {
            found = decoded_literal(decode_base64(strip_layout(body).as_slice()), end);
        }
    }
    if found.is_none() {
        if byte_at(input, start, QUOTE) {
            found = escaped(input, start + 1, QUOTE);
        }
    }
    match found {
        Some((bytes, end)) => Some((bytes, ws(input, end))),
        None => None,
    }
}

/// Reads one or more literals and joins them.
pub fn concatenated_definite_bytestring(input: &[u8], pos: usize) -> (r: Option<
    (ByteString, usize),
>)
    requires
        pos <= input.len() <= usize::MAX / 8,
    ensures
        r matches Some((bytes, end)) ==> spec_concatenated_definite_bytestring(
            input@,
            pos as int,
        ) == Some((bytes@, end as int)) && pos < end <= input.len(),
        r is None ==> spec_concatenated_definite_bytestring(input@, pos as int) is None,
{
    let (mut data, first_end) = match definite_bytestring(input, pos) {
        Some(found) => found,
        None => {
            return None;
        },
    };
    let ghost first = data@;
    let mut end = first_end;
    loop
        invariant
            pos < first_end <= end <= input.len() <= usize::MAX / 8,
            first + spec_more_bytestrings(input@, first_end as int).0 == data@
                + spec_more_bytestrings(input@, end as int).0,
            spec_more_bytestrings(input@, first_end as int).1 == spec_more_bytestrings(
                input@,
                end as int,
            ).1,
        ensures
            spec_definite_bytestring(input@, end as int) is None,
        decreases input.len() - end,
    {
        match definite_bytestring(input, end) {
            Some((mut bytes, next)) => {
                proof {
                    let rest = spec_more_bytestrings(input@, next as int).0;
                    assert(data@ + (bytes@ + rest) == (data@ + bytes@) + rest);
                }
                data.append(&mut bytes);
                end = next;
            },
            None => {
                break ;
            },
        }
    }
    assert(data@ + Seq::<u8>::empty() == data@);
    Some((ByteString { data, bitwidth: IntegerWidth::Unknown }, end))
}

/// The models of byte strings.
pub open spec fn chunk_models(chunks: Seq<ByteString>) -> Seq<Bytes> {
    chunks.map_values(|chunk: ByteString| chunk@)
}

/// Reads the chunks of an indefinite-length byte string.
fn bytestring_list(input: &[u8], pos: usize) -> (r: (Vec<ByteString>, usize))
    requires
        pos <= input.len() <= usize::MAX / 8,
    ensures
        spec_bytestring_list(input@, pos as int) == (chunk_models(r.0@), r.1 as int),
        pos <= r.1 <= input.len(),
{
    let mut chunks: Vec<ByteString> = Vec::new();
    let (chunk, first_end) = match concatenated_definite_bytestring(input, pos) {
        Some(found) => found,
        None => {
            assert(chunk_models(chunks@) == Seq::<Bytes>::empty());
            return (chunks, pos);
        },
    };
    let ghost first = chunk@;
    chunks.push(chunk);
    let mut end = first_end;
    assert(chunk_models(chunks@) == seq![first]);
    loop
        invariant
            pos < first_end <= end <= input.len() <= usize::MAX / 8,
            seq![first] + spec_bytestring_list_tail(input@, first_end as int).0 == chunk_models(
                chunks@,
            ) + spec_bytestring_list_tail(input@, end as int).0,
            spec_bytestring_list_tail(input@, first_end as int).1 == spec_bytestring_list_tail(
                input@,
                end as int,
            ).1,
        ensures
            spec_bytestring_list_tail(input@, end as int) == (Seq::<Bytes>::empty(), end as int),
        decreases input.len() - end,
    {
        if !byte_at(input, end, COMMA) {
            break ;
        }
        match concatenated_definite_bytestring(input, end + 1) {
            Some((chunk, next)) => {
                proof {
                    let rest = spec_bytestring_list_tail(input@, next as int).0;
                    assert(chunk_models(chunks@) + (seq![chunk@] + rest) == chunk_models(
                        chunks@.push(chunk),
                    ) + rest);
                }
                chunks.push(chunk);
                end = next;
            },
            None => {
                break ;
            },
        }
    }
    assert(chunk_models(chunks@) + Seq::<Bytes>::empty() == chunk_models(chunks@));
    (chunks, end)
}

/// Reads an indefinite-length byte string.
pub fn indefinite_bytestring(input: &[u8], pos: usize) -> (r: Option<(DataItem, usize)>)
    requires
        pos <= input.len() <= usize::MAX / 8,
    ensures
        r matches Some((item, end)) ==> spec_indefinite_bytestring(input@, pos as int) == Some(
            (item@, end as int),
        ) && pos < end <= input.len(),
        r is None ==> spec_indefinite_bytestring(input@, pos as int) is None,
{
    let open = match tag(input, pos, "(_") {
        Some(end) => end,
        None => {
            return None;
        },
    };
    let (chunks, next) = bytestring_list(input, open);
    match opt_comma_tag(input, next, CLOSE_PAREN, chunks.len() > 0) {
        Some(end) => Some((DataItem::IndefiniteByteString(chunks), end)),
        None => None,
    }
}

/// Reads a byte string, definite or indefinite.
pub fn bytestring(input: &[u8], pos: usize) -> (r: Option<(DataItem, usize)>)
    requires
        pos <= input.len() <= usize::MAX / 8,
    ensures
        r matches Some((item, end)) ==> spec_bytestring(input@, pos as int) == Some(
            (item@, end as int),
        ) && pos < end <= input.len(),
        r is None ==> spec_bytestring(input@, pos as int) is None,
{
    reveal(spec_bytestring);
    match concatenated_definite_bytestring(input, pos) {
        Some((bytes, end)) => Some((DataItem::ByteString(bytes), end)),
        None => indefinite_bytestring(input, pos),
    }
}

/// A byte string begins, behind layout, with `h`, `b`, a quote or `(`.
pub proof fn lemma_bytestring_begins(s: Seq<u8>, i: int)
    requires
        0 <= i <= s.len(),
        spec_bytestring(s, i) is Some,
    ensures
        run_end(s, i, Class::Layout) < s.len(),
        ({
            let b = s[run_end(s, i, Class::Layout)];
            b == LOWER_H || b == LOWER_B || b == QUOTE || b == OPEN_PAREN
        }),
{
    reveal(spec_bytestring);
    reveal_strlit("h");
    reveal_strlit("b32");
    reveal_strlit("h32");
    reveal_strlit("b64");
    reveal_strlit("(_");
    is_ascii_chars_encode_utf8("h"@);
    is_ascii_chars_encode_utf8("b32"@);
    is_ascii_chars_encode_utf8("h32"@);
    is_ascii_chars_encode_utf8("b64"@);
    is_ascii_chars_encode_utf8("(_"@);
    lemma_run_end(s, i, Class::Layout);
    let j = run_end(s, i, Class::Layout);
    if spec_concatenated_definite_bytestring(s, i) is Some {
        if spec_base16(s, j) is Some {
            lemma_tag_begins(s, j, "h".spec_bytes());
        } else if spec_base32(s, j) is Some {
            lemma_tag_begins(s, j, "b32".spec_bytes());
        } else if spec_base32hex(s, j) is Some {
            lemma_tag_begins(s, j, "h32".spec_bytes());
        } else if spec_base64url(s, j) is Some {
            lemma_tag_begins(s, j, "b64".spec_bytes());
        } else if spec_base64(s, j) is Some {
            lemma_tag_begins(s, j, "b64".spec_bytes());
        }
    } else {
        lemma_tag_begins(s, i, "(_".spec_bytes());
        assert(j == i);
    }
}

/// What is read up to a closing quote ends behind that quote, inside the input.
pub proof fn lemma_escaped_ends(s: Seq<u8>, i: int, quote: u8)
    requires
        0 <= i <= s.len(),
        spec_escaped(s, i, quote) is Some,
    ensures
        i < (spec_escaped(s, i, quote)->0).1 <= s.len(),
    decreases s.len() - i,
{
    if s[i] == quote {
    } else if s[i] == BACKSLASH {
        lemma_escaped_ends(s, i + 2, quote);
    } else {
        lemma_escaped_ends(s, i + 1, quote);
    }
}

/// A byte string literal is not empty and ends inside the input.
pub proof fn lemma_definite_bytestring_ends(s: Seq<u8>, i: int)
    requires
        0 <= i <= s.len(),
        spec_definite_bytestring(s, i) is Some,
    ensures
        i < (spec_definite_bytestring(s, i)->0).1 <= s.len(),
{
    let start = run_end(s, i, Class::Layout);
    lemma_run_end(s, i, Class::Layout);
    let end = (spec_literal(s, start)->0).1;
    assert(start < end <= s.len()) by {
        if spec_base16(s, start) is Some {
            lemma_encoded_ends(s, start, "h".spec_bytes(), Class::Base16);
        } else if spec_base32(s, start) is Some {
            lemma_encoded_ends(s, start, "b32".spec_bytes(), Class::Base32);
        } else if spec_base32hex(s, start) is Some {
            lemma_encoded_ends(s, start, "h32".spec_bytes(), Class::Base32Hex);
        } else if spec_base64url(s, start) is Some {
            lemma_encoded_ends(s, start, "b64".spec_bytes(), Class::Base64Url);
        } else if spec_base64(s, start) is Some {
            lemma_encoded_ends(s, start, "b64".spec_bytes(), Class::Base64);
        } else {
            lemma_escaped_ends(s, start + 1, QUOTE);
        }
    }
    lemma_run_end(s, end, Class::Layout);
}

/// An encoded literal ends behind its closing quote, inside the input.
proof fn lemma_encoded_ends(s: Seq<u8>, i: int, prefix: Seq<u8>, class: Class)
    requires
        0 <= i <= s.len(),
        spec_encoded(s, i, prefix, class) is Some,
    ensures
        i < (spec_encoded(s, i, prefix, class)->0).1 <= s.len(),
{
    lemma_run_end(s, i + prefix.len() + 1, class);
}

/// Literals that follow one another end inside the input.
pub proof fn lemma_more_bytestrings_end(s: Seq<u8>, i: int)
    requires
        0 <= i <= s.len(),
    ensures
        i <= spec_more_bytestrings(s, i).1 <= s.len(),
    decreases s.len() - i,
{
    if let Some((bytes, next)) = spec_definite_bytestring(s, i) {
        lemma_definite_bytestring_ends(s, i);
        lemma_more_bytestrings_end(s, next);
    }
}

/// A joined byte string is not empty and ends inside the input.
pub proof fn lemma_concatenated_definite_bytestring_ends(s: Seq<u8>, i: int)
    requires
        0 <= i <= s.len(),
        spec_concatenated_definite_bytestring(s, i) is Some,
    ensures
        i < (spec_concatenated_definite_bytestring(s, i)->0).1 <= s.len(),
{
    lemma_definite_bytestring_ends(s, i);
    lemma_more_bytestrings_end(s, (spec_definite_bytestring(s, i)->0).1);
}

/// The chunks of an indefinite-length byte string end inside the input.
proof fn lemma_bytestring_list_tail_ends(s: Seq<u8>, i: int)
    requires
        0 <= i <= s.len(),
    ensures
        i <= spec_bytestring_list_tail(s, i).1 <= s.len(),
    decreases s.len() - i,
{
    if has_byte(s, i, COMMA) {
        if let Some((chunk, next)) = spec_concatenated_definite_bytestring(s, i + 1) {
            lemma_concatenated_definite_bytestring_ends(s, i + 1);
            lemma_bytestring_list_tail_ends(s, next);
        }
    }
}

/// A byte string is not empty and ends inside the input.
pub proof fn lemma_bytestring_ends(s: Seq<u8>, i: int)
    requires
        0 <= i <= s.len(),
        spec_bytestring(s, i) is Some,
    ensures
        i < (spec_bytestring(s, i)->0).1 <= s.len(),
{
    reveal(spec_bytestring);
    if spec_concatenated_definite_bytestring(s, i) is Some {
        lemma_concatenated_definite_bytestring_ends(s, i);
    } else {
        let open = spec_tag(s, i, "(_".spec_bytes())->0;
        if let Some((chunk, next)) = spec_concatenated_definite_bytestring(s, open) {
            lemma_concatenated_definite_bytestring_ends(s, open);
            lemma_bytestring_list_tail_ends(s, next);
        }
        lemma_run_end(s, spec_bytestring_list(s, open).1 + 1, Class::Layout);
    }
}

/// The text of one encoded literal: a prefix, and a body between quotes.
pub open spec fn quoted(prefix: Seq<u8>, body: Seq<u8>) -> Seq<u8> {
    prefix + seq![QUOTE] + body + seq![QUOTE]
}

/// In the text of one encoded literal, the body is found where its bytes are all
/// of the class of the form, and nowhere else.
pub proof fn lemma_quoted_body(prefix: Seq<u8>, body: Seq<u8>, class: Class)
    requires
        !class.has(QUOTE),
        forall|k: int| 0 <= k < body.len() ==> #[trigger] body[k] != QUOTE,
    ensures
        spec_encoded(quoted(prefix, body), 0, prefix, class) == if all_of(body, class) {
            Some((body, quoted(prefix, body).len() as int))
        } else {
            None
        },
{
    let s = quoted(prefix, body);
    let open = prefix.len() as int;
    let close = open + 1 + body.len();
    assert(s.subrange(0, open) == prefix);
    assert(s[open] == QUOTE);
    assert(s[close] == QUOTE);
    assert forall|k: int| open + 1 <= k < close implies s[k] == body[k - open - 1] by {}
    lemma_run_end(s, open + 1, class);
    if all_of(body, class) {
        lemma_run_covers(s, open + 1, close, class);
        assert(s.subrange(open + 1, close) == body);
    } else {
        let j = choose|j: int| 0 <= j < body.len() && !class.has(#[trigger] body[j]);
        let stop = run_end(s, open + 1, class);
        if stop > open + 1 + j {
            assert(class.has(s[open + 1 + j]));
        }
        assert(s[stop] == body[stop - open - 1]);
    }
}

/// No byte string literal stands at the end of the input.
pub proof fn lemma_no_literal_at_the_end(s: Seq<u8>)
    ensures
        spec_definite_bytestring(s, s.len() as int) is None,
        spec_more_bytestrings(s, s.len() as int) == (Seq::<u8>::empty(), s.len() as int),
{
    let n = s.len() as int;
    reveal_strlit("h");
    reveal_strlit("b32");
    reveal_strlit("h32");
    reveal_strlit("b64");
    is_ascii_chars_encode_utf8("h"@);
    is_ascii_chars_encode_utf8("b32"@);
    is_ascii_chars_encode_utf8("h32"@);
    is_ascii_chars_encode_utf8("b64"@);
    lemma_run_covers(s, n, n, Class::Layout);
}

/// A text that is one literal denotes, as a byte string, the bytes of that literal.
/// Where no literal stands at the beginning of a text, nor `(`, no byte string does.
pub proof fn lemma_sole_literal(s: Seq<u8>)
    requires
        s.len() > 0,
        !is_layout(s[0]),
        s[0] != OPEN_PAREN,
    ensures
        spec_literal(s, 0) is None ==> spec_bytestring(s, 0) is None,
        spec_literal(s, 0) is Some && (spec_literal(s, 0)->0).1 == s.len() ==> spec_bytestring(
            s,
            0,
        ) == Some(
            (
                Item::ByteString(
                    Bytes { data: (spec_literal(s, 0)->0).0, bitwidth: IntegerWidth::Unknown },
                ),
                s.len() as int,
            ),
        ),
{
    let n = s.len() as int;
    reveal(spec_bytestring);
    reveal_strlit("(_");
    is_ascii_chars_encode_utf8("(_"@);
    lemma_run_covers(s, 0, 0, Class::Layout);
    lemma_run_covers(s, n, n, Class::Layout);
    lemma_no_literal_at_the_end(s);
    if let Some((bytes, end)) = spec_literal(s, 0) {
        if end == n {
            assert(bytes + Seq::<u8>::empty() == bytes);
        }
    } else {
        if spec_tag(s, 0, "(_".spec_bytes()) is Some {
            lemma_tag_begins(s, 0, "(_".spec_bytes());
        }
    }
}

/// Whether `body` holds neither `quote` nor a backslash: it stands for itself
/// between two bytes `quote`.
pub open spec fn is_plain(body: Seq<u8>, quote: u8) -> bool {
    forall|k: int| 0 <= k < body.len() ==> #[trigger] body[k] != quote && body[k] != BACKSLASH
}

/// Bytes that stand for themselves, and the closing quote behind them, are read as
/// they stand.
pub proof fn lemma_plain_body(s: Seq<u8>, i: int, body: Seq<u8>, quote: u8)
    requires
        0 <= i,
        i + body.len() < s.len(),
        s.subrange(i, i + body.len()) == body,
        is_plain(body, quote),
        s[i + body.len()] == quote,
    ensures
        spec_escaped(s, i, quote) == Some((body, i + body.len() + 1)),
    decreases body.len(),
{
    if body.len() == 0 {
        assert(body == Seq::<u8>::empty());
    } else {
        let rest = body.drop_first();
        assert(s[i] == body[0]);
        assert(s.subrange(i + 1, i + 1 + rest.len()) == rest);
        assert forall|k: int| 0 <= k < rest.len() implies #[trigger] rest[k] != quote && rest[k]
            != BACKSLASH by {
            assert(rest[k] == body[k + 1]);
        }
        lemma_plain_body(s, i + 1, rest, quote);
        assert(seq![body[0]] + rest == body);
    }
}

/// A raw literal of bytes that stand for themselves is read as it stands.
pub proof fn lemma_plain_literal(s: Seq<u8>, i: int, body: Seq<u8>)
    requires
        0 <= i,
        i + body.len() + 1 < s.len(),
        s[i] == QUOTE,
        s.subrange(i + 1, i + 1 + body.len()) == body,
        is_plain(body, QUOTE),
        s[i + 1 + body.len()] == QUOTE,
    ensures
        spec_literal(s, i) == Some((body, i + body.len() + 2)),
{
    reveal_strlit("h");
    reveal_strlit("b32");
    reveal_strlit("h32");
    reveal_strlit("b64");
    is_ascii_chars_encode_utf8("h"@);
    is_ascii_chars_encode_utf8("b32"@);
    is_ascii_chars_encode_utf8("h32"@);
    is_ascii_chars_encode_utf8("b64"@);
    if spec_tag(s, i, "h".spec_bytes()) is Some {
        lemma_tag_begins(s, i, "h".spec_bytes());
    }
    if spec_tag(s, i, "b32".spec_bytes()) is Some {
        lemma_tag_begins(s, i, "b32".spec_bytes());
    }
    if spec_tag(s, i, "h32".spec_bytes()) is Some {
        lemma_tag_begins(s, i, "h32".spec_bytes());
    }
    if spec_tag(s, i, "b64".spec_bytes()) is Some {
        lemma_tag_begins(s, i, "b64".spec_bytes());
    }
    lemma_plain_body(s, i + 1, body, QUOTE);
}

} // verus!
