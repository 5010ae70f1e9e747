//! Text primitives: substring search, lexicographic order and decimal
//! rendering, with their mathematical meaning over `Seq<char>`.

use vstd::prelude::*;

verus! {

/// `needle` stands in `hay` starting at position `at`.
pub open spec fn occurs_at(needle: Seq<char>, hay: Seq<char>, at: int) -> bool {
    &&& 0 <= at
    &&& at + needle.len() <= hay.len()
    &&& hay.subrange(at, at + needle.len()) == needle
}

/// `needle` is a contiguous part of `hay`.
pub open spec fn occurs_in(needle: Seq<char>, hay: Seq<char>) -> bool {
    exists|at: int| occurs_at(needle, hay, at)
}

/// The position of a character in the Unicode code charts.
pub open spec fn code_point(c: char) -> int {
    c as int
}

/// Strict lexicographic order on texts, character by character in code-chart
/// order; a proper prefix comes before the longer text.
pub open spec fn lex_before(a: Seq<char>, b: Seq<char>) -> bool
    decreases a.len(),
{
    if b.len() == 0 {
        false
    } else if a.len() == 0 {
        true
    } else if a[0] != b[0] {
        code_point(a[0]) < code_point(b[0])
    } else {
        lex_before(a.drop_first(), b.drop_first())
    }
}

/// The character that writes the digit `d`, for `d` below ten.
pub open spec fn digit_char(d: nat) -> char {
    seq!['0', '1', '2', '3', '4', '5', '6', '7', '8', '9'][d as int]
}

/// The decimal digits of a natural number, most significant first, without
/// leading zeros; zero is written `0`.
pub open spec fn digits_of(n: nat) -> Seq<char>
    decreases n,
{
    if n < 10 {
        seq![digit_char(n)]
    } else {
        digits_of(n / 10).push(digit_char(n % 10))
    }
}

/// An integer written in decimal, with a leading `-` when it is negative.
pub open spec fn decimal_text(n: int) -> Seq<char> {
    if n < 0 {
        seq!['-'] + digits_of((-n) as nat)
    } else {
        digits_of(n as nat)
    }
}

/// The parts of a text between its commas, in order. A text without a
/// comma is its own single part; two commas in a row, or a comma at either
/// end, give an empty part.
pub open spec fn comma_parts(text: Seq<char>) -> Seq<Seq<char>>
    decreases text.len(),
{
    if text.len() == 0 {
        seq![Seq::empty()]
    } else if text.last() == ',' {
        comma_parts(text.drop_last()).push(Seq::empty())
    } else {
        let before = comma_parts(text.drop_last());
        before.drop_last().push(before.last().push(text.last()))
    }
}

/// The digit that a character writes, if it writes one.
pub open spec fn digit_value(c: char) -> Option<nat> {
    if code_point('0') <= code_point(c) <= code_point('9') {
        Some((code_point(c) - code_point('0')) as nat)
    } else {
        None
    }
}

/// The number that a run of decimal digits writes; `None` for the empty
/// text and for a text with any other character.
pub open spec fn digits_value(text: Seq<char>) -> Option<nat>
    decreases text.len(),
{
    if text.len() == 0 {
        None
    } else {
        match digit_value(text.last()) {
            None => None,
            Some(d) => if text.len() == 1 {
                Some(d)
            } else {
                match digits_value(text.drop_last()) {
                    None => None,
                    Some(n) => Some(n * 10 + d),
                }
            },
        }
    }
}

/// The 32-bit integer that a text writes in decimal: digits, with one `+`
/// or `-` in front if any, and nothing else. `None` where the text is not
/// of that form or the number does not fit.
pub open spec fn decimal_i32(text: Seq<char>) -> Option<i32> {
    if text.len() > 0 && text[0] == '-' {
        match digits_value(text.drop_first()) {
            Some(n) => if n <= 0x8000_0000 {
                Some((-(n as int)) as i32)
            } else {
                None
            },
            None => None,
        }
    } else {
        let body = if text.len() > 0 && text[0] == '+' {
            text.drop_first()
        } else {
            text
        };
        match digits_value(body) {
            Some(n) => if n <= 0x7fff_ffff {
                Some(n as i32)
            } else {
                None
            },
            None => None,
        }
    }
}

/// The texts of a list of strings, in order.
pub open spec fn texts_of(parts: Seq<String>) -> Seq<Seq<char>> {
    parts.map_values(|s: String| s@)
}

/// No text comes before itself.
pub proof fn lemma_lex_irreflexive(a: Seq<char>)
    ensures
        !lex_before(a, a),
    decreases a.len(),
{
    if a.len() > 0 {
        lemma_lex_irreflexive(a.drop_first());
    }
}

/// Of two texts at most one comes before the other.
pub proof fn lemma_lex_asymmetric(a: Seq<char>, b: Seq<char>)
    requires
        lex_before(a, b),
    ensures
        !lex_before(b, a),
    decreases a.len(),
{
    if a.len() > 0 && b.len() > 0 && a[0] == b[0] {
        lemma_lex_asymmetric(a.drop_first(), b.drop_first());
    }
}

/// The order on texts is transitive.
pub proof fn lemma_lex_transitive(a: Seq<char>, b: Seq<char>, c: Seq<char>)
    requires
        lex_before(a, b),
        lex_before(b, c),
    ensures
        lex_before(a, c),
    decreases a.len(),
{
    if a.len() > 0 && b.len() > 0 && c.len() > 0 && a[0] == b[0] && b[0] == c[0] {
        lemma_lex_transitive(a.drop_first(), b.drop_first(), c.drop_first());
    }
}

/// Two different texts are always ordered one way or the other.
pub proof fn lemma_lex_total(a: Seq<char>, b: Seq<char>)
    ensures
        lex_before(a, b) || lex_before(b, a) || a == b,
    decreases a.len(),
{
    if a.len() == 0 || b.len() == 0 {
        if a.len() == 0 && b.len() == 0 {
            assert(a =~= b);
        }
    } else if a[0] == b[0] {
        lemma_lex_total(a.drop_first(), b.drop_first());
        if a.drop_first() == b.drop_first() {
            assert(a =~= seq![a[0]] + a.drop_first());
            assert(b =~= seq![b[0]] + b.drop_first());
        }
    } else {
        assert(code_point(a[0]) != code_point(b[0]));
    }
}

/// Trusted: `str::contains` with a string pattern. The standard library
/// documents it as true exactly when the pattern matches a sub-slice of the
/// text; the contract says the same over the characters.
#[verifier::external_body]
pub(crate) fn contains_text(hay: &str, needle: &str) -> (found: bool)
    ensures
        found == occurs_in(needle@, hay@),
{
    hay.contains(needle)
}

/// Trusted: `<` on `str`. The standard library orders strings
/// lexicographically by byte value, which it documents as the order of the
/// code points; the contract states that order.
#[verifier::external_body]
pub(crate) fn text_before(a: &str, b: &str) -> (before: bool)
    ensures
        before == lex_before(a@, b@),
{
    a < b
}

/// Trusted: `ToString::to_string` on an `i32`. The standard library formats
/// an integer in decimal, with a minus sign for negative values and nothing
/// else; the contract spells that out.
#[verifier::external_body]
pub(crate) fn decimal_string(n: i32) -> (text: String)
    ensures
        text@ == decimal_text(n as int),
{
    n.to_string()
}

/// Trusted: `str::split` with the pattern `','`. The standard library
/// returns the substrings between the matches of the pattern, so one more
/// than there are commas; the contract names them over the characters.
#[verifier::external_body]
pub(crate) fn split_at_commas(text: &str) -> (parts: Vec<String>)
    ensures
        texts_of(parts@) == comma_parts(text@),
{
    text.split(',').map(|part| part.to_string()).collect()
}

/// Trusted: `str::parse::<i32>`. The standard library accepts an optional
/// sign followed by decimal digits, and fails on the empty text, on any
/// other character and on a number that does not fit.
#[verifier::external_body]
pub(crate) fn parse_i32(text: &str) -> (number: Option<i32>)
    ensures
        number == decimal_i32(text@),
{
    text.parse::<i32>().ok()
}

} // verus!
