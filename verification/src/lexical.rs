//! Bytes, classes of bytes, and the scanning of runs and fixed words.

use vstd::prelude::*;
use vstd::string::*;

verus! {

pub const TAB: u8 = 0x09;

pub const LINE_FEED: u8 = 0x0a;

pub const VERTICAL_TAB: u8 = 0x0b;

pub const CARRIAGE_RETURN: u8 = 0x0d;

pub const SPACE: u8 = 0x20;

pub const DOUBLE_QUOTE: u8 = 0x22;

pub const QUOTE: u8 = 0x27;

pub const OPEN_PAREN: u8 = 0x28;

pub const CLOSE_PAREN: u8 = 0x29;

pub const PLUS: u8 = 0x2b;

pub const COMMA: u8 = 0x2c;

pub const MINUS: u8 = 0x2d;

pub const DOT: u8 = 0x2e;

pub const SLASH: u8 = 0x2f;

pub const DIGIT_0: u8 = 0x30;

pub const DIGIT_2: u8 = 0x32;

pub const DIGIT_7: u8 = 0x37;

pub const DIGIT_9: u8 = 0x39;

pub const COLON: u8 = 0x3a;

pub const EQUALS: u8 = 0x3d;

pub const UPPER_A: u8 = 0x41;

pub const UPPER_E: u8 = 0x45;

pub const UPPER_F: u8 = 0x46;

pub const UPPER_I: u8 = 0x49;

pub const UPPER_N: u8 = 0x4e;

pub const UPPER_V: u8 = 0x56;

pub const UPPER_Z: u8 = 0x5a;

pub const OPEN_BRACKET: u8 = 0x5b;

pub const BACKSLASH: u8 = 0x5c;

pub const CLOSE_BRACKET: u8 = 0x5d;

pub const UNDERSCORE: u8 = 0x5f;

pub const LOWER_A: u8 = 0x61;

pub const LOWER_E: u8 = 0x65;

pub const LOWER_B: u8 = 0x62;

pub const LOWER_F: u8 = 0x66;

pub const LOWER_H: u8 = 0x68;

pub const LOWER_N: u8 = 0x6e;

pub const LOWER_S: u8 = 0x73;

pub const LOWER_T: u8 = 0x74;

pub const LOWER_U: u8 = 0x75;

pub const LOWER_Z: u8 = 0x7a;

pub const OPEN_BRACE: u8 = 0x7b;

pub const CLOSE_BRACE: u8 = 0x7d;

/// Tab, line feed, vertical tab, carriage return or space.
pub open spec fn is_layout(b: u8) -> bool {
    b == TAB || b == LINE_FEED || b == VERTICAL_TAB || b == CARRIAGE_RETURN || b == SPACE
}

/// `0`-`9`.
pub open spec fn is_digit(b: u8) -> bool {
    DIGIT_0 <= b <= DIGIT_9
}

/// `A`-`Z` or `a`-`z`.
pub open spec fn is_letter(b: u8) -> bool {
    UPPER_A <= b <= UPPER_Z || LOWER_A <= b <= LOWER_Z
}

/// The classes of bytes that the grammar scans runs of. Each class of an encoded
/// literal's body holds the layout bytes too.
#[derive(Clone, Copy, Debug, PartialEq, Eq, Structural)]
pub enum Class {
    /// Tab, line feed, vertical tab, carriage return, space.
    Layout,
    /// `0`-`9`.
    Digit,
    /// `0`-`9`, `A`-`F`, `a`-`f`, layout.
    Base16,
    /// `A`-`Z`, `2`-`7`, `=`, layout.
    Base32,
    /// `0`-`9`, `A`-`V`, `=`, layout.
    Base32Hex,
    /// `0`-`9`, `A`-`Z`, `a`-`z`, `-`, `_`, layout.
    Base64Url,
    /// `0`-`9`, `A`-`Z`, `a`-`z`, `+`, `/`, `=`, layout.
    Base64,
}

impl Class {
    /// Whether `b` belongs to the class.
    pub open spec fn has(self, b: u8) -> bool {
        match self {
            Class::Layout => is_layout(b),
            Class::Digit => is_digit(b),
            Class::Base16 => is_digit(b) || UPPER_A <= b <= UPPER_F || LOWER_A <= b <= LOWER_F
                || is_layout(b),
            Class::Base32 => UPPER_A <= b <= UPPER_Z || DIGIT_2 <= b <= DIGIT_7 || b == EQUALS
                || is_layout(b),
            Class::Base32Hex => is_digit(b) || UPPER_A <= b <= UPPER_V || b == EQUALS || is_layout(
                b,
            ),
            Class::Base64Url => is_letter(b) || is_digit(b) || b == MINUS || b == UNDERSCORE
                || is_layout(b),
            Class::Base64 => is_letter(b) || is_digit(b) || b == PLUS || b == SLASH || b == EQUALS
                || is_layout(b),
        }
    }

    pub fn contains(self, b: u8) -> (found: bool)
        ensures
            found == self.has(b),
    {
        let layout = b == TAB || b == LINE_FEED || b == VERTICAL_TAB || b == CARRIAGE_RETURN || b
            == SPACE;
        let digit = DIGIT_0 <= b && b <= DIGIT_9;
        let letter = (UPPER_A <= b && b <= UPPER_Z) || (LOWER_A <= b && b <= LOWER_Z);
        match self {
            Class::Layout => layout,
            Class::Digit => digit,
            Class::Base16 => digit || (UPPER_A <= b && b <= UPPER_F) || (LOWER_A <= b && b
                <= LOWER_F) || layout,
            Class::Base32 => (UPPER_A <= b && b <= UPPER_Z) || (DIGIT_2 <= b && b <= DIGIT_7) || b
                == EQUALS || layout,
            Class::Base32Hex => digit || (UPPER_A <= b && b <= UPPER_V) || b == EQUALS || layout,
            Class::Base64Url => letter || digit || b == MINUS || b == UNDERSCORE || layout,
            Class::Base64 => letter || digit || b == PLUS || b == SLASH || b == EQUALS || layout,
        }
    }
}

/// Where the longest run of bytes of `class` that starts at `i` ends.
pub open spec fn run_end(s: Seq<u8>, i: int, class: Class) -> int
    decreases s.len() - i,
{
    if 0 <= i < s.len() && class.has(s[i]) {
        run_end(s, i + 1, class)
    } else {
        i
    }
}

/// A run ends inside the input, holds bytes of its class only, and stops at the
/// first byte that is not of the class.
pub proof fn lemma_run_end(s: Seq<u8>, i: int, class: Class)
    requires
        0 <= i <= s.len(),
    ensures
        i <= run_end(s, i, class) <= s.len(),
        forall|k: int| i <= k < run_end(s, i, class) ==> class.has(#[trigger] s[k]),
        run_end(s, i, class) < s.len() ==> !class.has(s[run_end(s, i, class)]),
    decreases s.len() - i,
{
    if i < s.len() && class.has(s[i]) {
        lemma_run_end(s, i + 1, class);
    }
}

/// Scans the longest run of bytes of `class` from `pos` on and returns where it ends.
pub fn scan(input: &[u8], pos: usize, class: Class) -> (end: usize)
    requires
        pos <= input.len(),
    ensures
        end == run_end(input@, pos as int, class),
        pos <= end <= input.len(),
{
    let mut end = pos;
    while end < input.len() && class.contains(input[end])
        invariant
            pos <= end <= input.len(),
            run_end(input@, pos as int, class) == run_end(input@, end as int, class),
        decreases input.len() - end,
    {
        end += 1;
    }
    end
}

/// Skips layout: the position of the first byte from `pos` on that is none.
pub fn ws(input: &[u8], pos: usize) -> (end: usize)
    requires
        pos <= input.len(),
    ensures
        end == run_end(input@, pos as int, Class::Layout),
        pos <= end <= input.len(),
{
    scan(input, pos, Class::Layout)
}

/// Whether the byte `b` stands in `s` at `i`.
pub open spec fn has_byte(s: Seq<u8>, i: int, b: u8) -> bool {
    0 <= i < s.len() && s[i] == b
}

/// Whether the bytes of `word` stand in `s` from `i` on.
pub open spec fn has_word(s: Seq<u8>, i: int, word: Seq<u8>) -> bool {
    0 <= i && i + word.len() <= s.len() && s.subrange(i, i + word.len()) == word
}

pub fn byte_at(input: &[u8], pos: usize, b: u8) -> (found: bool)
    ensures
        found == has_byte(input@, pos as int, b),
{
    pos < input.len() && input[pos] == b
}

/// Where `word` ends if it stands in `s` from `i` on.
pub open spec fn spec_tag(s: Seq<u8>, i: int, word: Seq<u8>) -> Option<int> {
    if has_word(s, i, word) {
        Some(i + word.len())
    } else {
        None
    }
}

/// Matches a fixed word at `pos`: where it ends, if it stands there.
pub fn tag(input: &[u8], pos: usize, word: &str) -> (r: Option<usize>)
    requires
        pos <= input.len(),
    ensures
        r matches Some(end) ==> spec_tag(input@, pos as int, word.spec_bytes()) == Some(end as int)
            && pos <= end <= input.len(),
        r is None ==> spec_tag(input@, pos as int, word.spec_bytes()) is None,
{
    let bytes = word.as_bytes();
    let n = bytes.len();
    if n > input.len() - pos {
        return None;
    }
    let mut k: usize = 0;
    while k < n
        invariant
            k <= n,
            n == bytes@.len(),
            bytes@ == word.spec_bytes(),
            pos + n <= input.len(),
            input@.subrange(pos as int, pos + k) == bytes@.subrange(0, k as int),
        decreases n - k,
    {
        if input[pos + k] != bytes[k] {
            assert(input@.subrange(pos as int, pos + n)[k as int] != bytes@[k as int]);
            return None;
        }
        assert(input@.subrange(pos as int, pos + k + 1) == input@.subrange(
            pos as int,
            pos + k,
        ).push(input@[pos + k]));
        assert(bytes@.subrange(0, k + 1) == bytes@.subrange(0, k as int).push(bytes@[k as int]));
        k += 1;
    }
    assert(bytes@.subrange(0, n as int) == bytes@);
    Some(pos + n)
}

/// The closing byte `close` of a list at `i`. Behind a list that is not empty
/// (`trailing`), a comma and layout may precede it.
pub open spec fn spec_opt_comma_tag(s: Seq<u8>, i: int, close: u8, trailing: bool) -> Option<int> {
    if has_byte(s, i, close) {
        Some(i + 1)
    } else if trailing && has_byte(s, i, COMMA) {
        let j = run_end(s, i + 1, Class::Layout);
        if has_byte(s, j, close) {
            Some(j + 1)
        } else {
            None
        }
    } else {
        None
    }
}

/// Matches the closing byte of a list, behind a trailing comma where one is allowed.
pub fn opt_comma_tag(input: &[u8], pos: usize, close: u8, trailing: bool) -> (r: Option<usize>)
    requires
        pos <= input.len(),
    ensures
        r matches Some(end) ==> spec_opt_comma_tag(input@, pos as int, close, trailing) == Some(
            end as int,
        ) && pos < end <= input.len(),
        r is None ==> spec_opt_comma_tag(input@, pos as int, close, trailing) is None,
{
    if byte_at(input, pos, close) {
        Some(pos + 1)
    } else if trailing && byte_at(input, pos, COMMA) {
        let j = ws(input, pos + 1);
        if byte_at(input, j, close) {
            Some(j + 1)
        } else {
            None
        }
    } else {
        None
    }
}

/// The first of two attempts that succeeds.
pub open spec fn or_else<T>(first: Option<T>, second: Option<T>) -> Option<T> {
    if first is Some {
        first
    } else {
        second
    }
}

/// A word that stands at `i` has its first byte there.
pub proof fn lemma_tag_begins(s: Seq<u8>, i: int, word: Seq<u8>)
    requires
        word.len() > 0,
        spec_tag(s, i, word) is Some,
    ensures
        has_byte(s, i, word[0]),
{
    assert(s.subrange(i, i + word.len())[0] == word[0]);
}

/// Bytes of one class from `i` up to `j`, where the input ends or a byte that is not
/// of the class stands, are the run that starts at `i`.
pub proof fn lemma_run_covers(s: Seq<u8>, i: int, j: int, class: Class)
    requires
        0 <= i <= j <= s.len(),
        forall|k: int| i <= k < j ==> class.has(#[trigger] s[k]),
        j < s.len() ==> !class.has(s[j]),
    ensures
        run_end(s, i, class) == j,
    decreases j - i,
{
    if i < j {
        lemma_run_covers(s, i + 1, j, class);
    }
}

/// The bytes of `s` that are not layout, in their order.
pub open spec fn without_layout(s: Seq<u8>) -> Seq<u8>
    decreases s.len(),
{
    if s.len() == 0 {
        s
    } else if is_layout(s.last()) {
        without_layout(s.drop_last())
    } else {
        without_layout(s.drop_last()).push(s.last())
    }
}

/// Takes the layout out of `input`.
pub fn strip_layout(input: &[u8]) -> (stripped: Vec<u8>)
    ensures
        stripped@ == without_layout(input@),
        stripped@.len() <= input@.len(),
{
    let mut stripped: Vec<u8> = Vec::new();
    let mut k: usize = 0;
    while k < input.len()
        invariant
            k <= input.len(),
            stripped@ == without_layout(input@.subrange(0, k as int)),
            stripped@.len() <= k,
        decreases input.len() - k,
    {
        assert(input@.subrange(0, k + 1).drop_last() == input@.subrange(0, k as int));
        if !Class::Layout.contains(input[k]) {
            stripped.push(input[k]);
        }
        k += 1;
    }
    assert(input@.subrange(0, input@.len() as int) == input@);
    stripped
}

/// Whether `s` holds bytes of `class` only.
pub open spec fn all_of(s: Seq<u8>, class: Class) -> bool {
    forall|k: int| 0 <= k < s.len() ==> class.has(#[trigger] s[k])
}

/// Taking the layout out leaves the bytes that are not layout, and is done once and
/// for all. What is left holds bytes of a class only where that was so before,
/// given that layout belongs to the class.
pub proof fn lemma_without_layout(s: Seq<u8>, class: Class)
    requires
        forall|b: u8| is_layout(b) ==> class.has(b),
    ensures
        without_layout(without_layout(s)) == without_layout(s),
        all_of(without_layout(s), class) == all_of(s, class),
    decreases s.len(),
{
    if s.len() > 0 {
        let front = s.drop_last();
        lemma_without_layout(front, class);
        let stripped = without_layout(front);
        if is_layout(s.last()) {
            if all_of(front, class) {
                assert forall|k: int| 0 <= k < s.len() implies class.has(#[trigger] s[k]) by {
                    if k < front.len() {
                        assert(front[k] == s[k]);
                    }
                }
            } else {
                let k = choose|k: int| 0 <= k < front.len() && !class.has(#[trigger] front[k]);
                assert(!class.has(s[k]));
            }
        } else {
            let longer = stripped.push(s.last());
            assert(longer.drop_last() == stripped);
            if all_of(s, class) {
                assert forall|k: int| 0 <= k < front.len() implies class.has(
                    #[trigger] front[k],
                ) by {
                    assert(front[k] == s[k]);
                }
                assert forall|k: int| 0 <= k < longer.len() implies class.has(
                    #[trigger] longer[k],
                ) by {
                    if k < stripped.len() {
                        assert(longer[k] == stripped[k]);
                    } else {
                        assert(longer[k] == s[s.len() - 1]);
                    }
                }
            } else {
                let k = choose|k: int| 0 <= k < s.len() && !class.has(#[trigger] s[k]);
                if k < front.len() {
                    assert(!class.has(front[k]));
                    let j = choose|j: int|
                        0 <= j < stripped.len() && !class.has(#[trigger] stripped[j]);
                    assert(!class.has(longer[j]));
                } else {
                    assert(!class.has(longer[longer.len() - 1]));
                }
            }
        }
    }
}

} // verus!
