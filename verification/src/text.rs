//! Characters and texts: the character classes that the scanner and the lexer
//! go by, and the calls into the standard library that decide them.

use vstd::prelude::*;

verus! {

/// The Unicode property `White_Space`.
pub open spec fn is_white_space(c: char) -> bool {
    let u = c as u32;
    ||| 0x09 <= u <= 0x0D
    ||| u == 0x20
    ||| u == 0x85
    ||| u == 0xA0
    ||| u == 0x1680
    ||| 0x2000 <= u <= 0x200A
    ||| u == 0x2028
    ||| u == 0x2029
    ||| u == 0x202F
    ||| u == 0x205F
    ||| u == 0x3000
}

/// `s` without its leading whitespace.
pub open spec fn trim_front(s: Seq<char>) -> Seq<char>
    decreases s.len(),
{
    if s.len() > 0 && is_white_space(s[0]) {
        trim_front(s.drop_first())
    } else {
        s
    }
}

/// `s` without its trailing whitespace.
pub open spec fn trim_back(s: Seq<char>) -> Seq<char>
    decreases s.len(),
{
    if s.len() > 0 && is_white_space(s[s.len() - 1]) {
        trim_back(s.drop_last())
    } else {
        s
    }
}

/// `s` without leading and trailing whitespace.
pub open spec fn trimmed(s: Seq<char>) -> Seq<char> {
    trim_back(trim_front(s))
}

/// Whether the character with code point `b` is numeric: the ASCII digits, the
/// superscripts one to three and the three vulgar fractions.
pub open spec fn is_numeric_byte(b: u8) -> bool {
    ||| 0x30 <= b <= 0x39
    ||| b == 0xB2
    ||| b == 0xB3
    ||| b == 0xB9
    ||| 0xBC <= b <= 0xBE
}

/// Whether the character with code point `b` is alphabetic: the ASCII letters and
/// the letters of the Latin-1 supplement.
pub open spec fn is_alphabetic_byte(b: u8) -> bool {
    ||| 0x41 <= b <= 0x5A
    ||| 0x61 <= b <= 0x7A
    ||| b == 0xAA
    ||| b == 0xB5
    ||| b == 0xBA
    ||| 0xC0 <= b <= 0xD6
    ||| 0xD8 <= b <= 0xF6
    ||| 0xF8 <= b
}

/// Whether the character with code point `b` is whitespace.
pub open spec fn is_whitespace_byte(b: u8) -> bool {
    is_white_space(b as char)
}

/// The texts of a vector of strings.
pub open spec fn texts(v: Seq<String>) -> Seq<Seq<char>> {
    Seq::new(v.len(), |i: int| v[i]@)
}

/// `str::trim`: the text without its leading and trailing characters of the
/// Unicode property `White_Space`.
#[verifier::external_body]
pub(crate) fn trim_text(s: &str) -> (r: &str)
    ensures
        r@ == trimmed(s@),
{
    s.trim()
}

/// `char::is_numeric` on the character with code point `b`. Of the first 256
/// code points Unicode counts as numeric the ten digits, `²`, `³`, `¹`, `¼`, `½`
/// and `¾`.
#[verifier::external_body]
pub(crate) fn byte_is_numeric(b: u8) -> (r: bool)
    ensures
        r == is_numeric_byte(b),
{
    (b as char).is_numeric()
}

/// Whether a character has the Unicode property `Alphabetic`, as the standard
/// library's tables give it.
pub uninterp spec fn is_alphabetic(c: char) -> bool;

/// `char::is_alphabetic`. Of the first 256 code points Unicode counts as
/// alphabetic the ASCII letters, `ª`, `µ`, `º` and `À` to `ÿ` without `×` and `÷`.
#[verifier::external_body]
pub(crate) fn char_is_alphabetic(c: char) -> (r: bool)
    ensures
        r == is_alphabetic(c),
        (c as u32) < 256 ==> r == is_alphabetic_byte(c as u8),
{
    c.is_alphabetic()
}

/// `char::is_whitespace`: whether a character has the Unicode property
/// `White_Space`.
#[verifier::external_body]
pub(crate) fn char_is_whitespace(c: char) -> (r: bool)
    ensures
        r == is_white_space(c),
{
    c.is_whitespace()
}

/// `str::eq`: whether two texts hold the same characters.
#[verifier::external_body]
pub(crate) fn same_text(a: &str, b: &str) -> (r: bool)
    ensures
        r == (a@ == b@),
{
    a == b
}

/// The characters of a text.
pub fn chars_of(s: &str) -> (r: Vec<char>)
    ensures
        r@ == s@,
{
    broadcast use vstd::string::group_string_axioms;

    let mut out: Vec<char> = Vec::new();
    for c in it: s.chars()
        invariant
            it.seq() == s@,
            out@.len() == it.index(),
            forall|j: int| 0 <= j < out@.len() ==> out@[j] == it.seq()[j],
    {
        out.push(c);
    }
    assert(out@ =~= s@);
    out
}

} // verus!
