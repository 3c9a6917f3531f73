//! Splits source text into raw tokens: operator glyphs, digit runs and letter runs.
//!
//! The scanner walks the UTF-8 bytes of the trimmed text and classifies every byte
//! by the character with the same code point.

use vstd::prelude::*;
use vstd::utf8::*;
use crate::text::{
    byte_is_numeric, char_is_alphabetic, char_is_whitespace, is_alphabetic_byte, is_numeric_byte,
    is_whitespace_byte, texts, trim_back, trim_front, trim_text, trimmed,
};

verus! {

/// Why a text could not be split into raw tokens.
#[derive(Debug, Clone, Copy, PartialEq)]
pub enum Error {
    /// A byte that is no glyph, digit, letter or whitespace; it is reported as the
    /// character with the same code point.
    UnknownChar(char),
    /// A run of digits or letters whose bytes are not UTF-8 text of their own.
    InvalidUtf8,
}

/// The operator glyphs, each a token of its own: `<>[]{}(),:+*/&|!%$@=^`.
pub open spec fn is_glyph(b: u8) -> bool {
    ||| b == 0x3C  // <
    ||| b == 0x3E  // >
    ||| b == 0x5B  // [
    ||| b == 0x5D  // ]
    ||| b == 0x7B  // {
    ||| b == 0x7D  // }
    ||| b == 0x28  // (
    ||| b == 0x29  // )
    ||| b == 0x2C  // ,
    ||| b == 0x3A  // :
    ||| b == 0x2B  // +
    ||| b == 0x2A  // *
    ||| b == 0x2F  // /
    ||| b == 0x26  // &
    ||| b == 0x7C  // |
    ||| b == 0x21  // !
    ||| b == 0x25  // %
    ||| b == 0x24  // $
    ||| b == 0x40  // @
    ||| b == 0x3D  // =
    ||| b == 0x5E  // ^
}

/// Whether `b` belongs to the class of a run: digits if `numeric`, else letters.
pub open spec fn in_run(b: u8, numeric: bool) -> bool {
    if numeric {
        is_numeric_byte(b)
    } else {
        is_alphabetic_byte(b)
    }
}

/// Where the maximal run that starts at `i` ends: the first index from `i` on
/// that holds no byte of the run's class, or the length of `b`.
pub open spec fn run_end(b: Seq<u8>, i: int, numeric: bool) -> int
    decreases b.len() - i,
{
    if 0 <= i < b.len() && in_run(b[i], numeric) {
        run_end(b, i + 1, numeric)
    } else {
        i
    }
}

/// Where the token that starts with the glyph at `i` ends: two bytes on for
/// `==` and `!=`, one byte on for every other glyph.
pub open spec fn glyph_end(b: Seq<u8>, i: int) -> int {
    if i + 1 < b.len() && (b[i] == 0x3D || b[i] == 0x21) && b[i + 1] == 0x3D {
        i + 2
    } else {
        i + 1
    }
}

/// Where the token that starts at `i` ends, for a byte that starts a token.
pub open spec fn token_end(b: Seq<u8>, i: int) -> int {
    if is_glyph(b[i]) {
        glyph_end(b, i)
    } else {
        run_end(b, i, is_numeric_byte(b[i]))
    }
}

/// `t` in front of the tokens of `rest`; a failure in `rest` stays.
pub open spec fn prepend(t: Seq<char>, rest: Result<Seq<Seq<char>>, Error>) -> Result<
    Seq<Seq<char>>,
    Error,
> {
    match rest {
        Ok(ts) => Ok(seq![t] + ts),
        Err(e) => Err(e),
    }
}

/// The raw tokens of the bytes of `b` from `i` on, or the first failure met on
/// the way from left to right.
///
/// A token is never empty and ends within the bytes (`lemma_token_end_bounds`),
/// so the scan fails with `InvalidUtf8` only where the bytes of a token are no
/// UTF-8 text; those of a glyph always are (`lemma_glyph_token`).
pub open spec fn tokens_from(b: Seq<u8>, i: int) -> Result<Seq<Seq<char>>, Error>
    decreases b.len() - i,
{
    if i < 0 || i >= b.len() {
        Ok(seq![])
    } else if is_glyph(b[i]) || is_numeric_byte(b[i]) || is_alphabetic_byte(b[i]) {
        let j = token_end(b, i);
        if i < j <= b.len() && valid_utf8(b.subrange(i, j)) {
            prepend(decode_utf8(b.subrange(i, j)), tokens_from(b, j))
        } else {
            Err(Error::InvalidUtf8)
        }
    } else if is_whitespace_byte(b[i]) {
        tokens_from(b, i + 1)
    } else {
        Err(Error::UnknownChar(b[i] as char))
    }
}

/// The raw tokens of a source text.
pub open spec fn tokenize_spec(s: Seq<char>) -> Result<Seq<Seq<char>>, Error> {
    tokens_from(encode_utf8(trimmed(s)), 0)
}

/// The outcome of tokenizing, with each token taken by its text.
pub open spec fn outcome(r: Result<Vec<String>, Error>) -> Result<Seq<Seq<char>>, Error> {
    match r {
        Ok(v) => Ok(texts(v@)),
        Err(e) => Err(e),
    }
}

/// The tokens of `done` followed by those of `rest`; a failure in `rest` stays.
pub open spec fn join(done: Seq<Seq<char>>, rest: Result<Seq<Seq<char>>, Error>) -> Result<
    Seq<Seq<char>>,
    Error,
> {
    match rest {
        Ok(ts) => Ok(done + ts),
        Err(e) => Err(e),
    }
}

/// `String::from_utf8`: the text that `bytes` encode, if they are valid UTF-8.
#[verifier::external_body]
fn text_of(bytes: Vec<u8>) -> (r: Option<String>)
    ensures
        r is Some <==> valid_utf8(bytes@),
        r matches Some(t) ==> t@ == decode_utf8(bytes@),
{
    String::from_utf8(bytes).ok()
}

/// Whether `b` is one of the operator glyphs.
fn is_glyph_byte(b: u8) -> (r: bool)
    ensures
        r == is_glyph(b),
{
    b == 0x3C || b == 0x3E || b == 0x5B || b == 0x5D || b == 0x7B || b == 0x7D || b == 0x28
        || b == 0x29 || b == 0x2C || b == 0x3A || b == 0x2B || b == 0x2A || b == 0x2F || b == 0x26
        || b == 0x7C || b == 0x21 || b == 0x25 || b == 0x24 || b == 0x40 || b == 0x3D || b == 0x5E
}

/// Walks to the end of the run of digits or letters that starts at `start`.
fn scan_run(bytes: &[u8], start: usize, numeric: bool) -> (end: usize)
    requires
        start <= bytes@.len(),
    ensures
        end == run_end(bytes@, start as int, numeric),
        start <= end <= bytes@.len(),
        start < bytes@.len() && in_run(bytes@[start as int], numeric) ==> start < end,
{
    let mut idx: usize = start;
    while idx < bytes.len()
        invariant
            start <= idx <= bytes@.len(),
            run_end(bytes@, start as int, numeric) == run_end(bytes@, idx as int, numeric),
        decreases bytes@.len() - idx,
    {
        let b = bytes[idx];
        let inside = if numeric {
            byte_is_numeric(b)
        } else {
            char_is_alphabetic(b as char)
        };
        if !inside {
            return idx;
        }
        idx += 1;
    }
    idx
}

/// Copies the bytes from `start` up to `end`.
fn copy_range(bytes: &[u8], start: usize, end: usize) -> (r: Vec<u8>)
    requires
        start <= end <= bytes@.len(),
    ensures
        r@ == bytes@.subrange(start as int, end as int),
{
    let mut out: Vec<u8> = Vec::new();
    let mut idx: usize = start;
    while idx < end
        invariant
            start <= idx <= end <= bytes@.len(),
            out@ == bytes@.subrange(start as int, idx as int),
        decreases end - idx,
    {
        out.push(bytes[idx]);
        idx += 1;
        assert(out@ =~= bytes@.subrange(start as int, idx as int));
    }
    out
}

/// Splits `s` into raw tokens.
///
/// The text is trimmed and its bytes are scanned from left to right. Each glyph is
/// a token of its own, but `==` and `!=` are one token of two characters; each
/// maximal run of digits and each maximal run of letters is one token; whitespace
/// separates tokens and is dropped. The scan fails at the first byte that belongs
/// to none of these classes, and at the first run that is no UTF-8 text of its own
/// (a run that ends inside a character of several bytes).
pub fn tokenize(s: &str) -> (r: Result<Vec<String>, Error>)
    ensures
        outcome(r) == tokenize_spec(s@),
{
    let mut idx: usize = 0;
    let mut tokens: Vec<String> = Vec::new();
    let bytes = trim_text(s).as_bytes();
    assert(texts(tokens@) =~= Seq::<Seq<char>>::empty());
    assert(join(texts(tokens@), tokens_from(bytes@, 0)) == tokens_from(bytes@, 0)) by {
        if let Ok(ts) = tokens_from(bytes@, 0) {
            assert(texts(tokens@) + ts =~= ts);
        }
    }
    while idx < bytes.len()
        invariant
            idx <= bytes@.len(),
            bytes@ == encode_utf8(trimmed(s@)),
            tokens_from(bytes@, 0) == join(texts(tokens@), tokens_from(bytes@, idx as int)),
        decreases bytes@.len() - idx,
    {
        let b = bytes[idx];
        let start = idx;
        if is_glyph_byte(b) {
            if idx + 1 < bytes.len() && (b == 0x3D || b == 0x21) && bytes[idx + 1] == 0x3D {
                idx += 2;
            } else {
                idx += 1;
            }
        } else if byte_is_numeric(b) {
            idx = scan_run(bytes, start, true);
        } else if char_is_alphabetic(b as char) {
            idx = scan_run(bytes, start, false);
        } else if char_is_whitespace(b as char) {
            idx += 1;
            continue ;
        } else {
            return Err(Error::UnknownChar(b as char));
        }
        assert(idx == token_end(bytes@, start as int));
        let ghost before = texts(tokens@);
        match text_of(copy_range(bytes, start, idx)) {
            Some(t) => {
                tokens.push(t);
                proof {
                    let rest = tokens_from(bytes@, idx as int);
                    assert(texts(tokens@) =~= before + seq![t@]);
                    if let Ok(ts) = rest {
                        assert(before + (seq![t@] + ts) =~= texts(tokens@) + ts);
                    }
                }
            },
            None => {
                return Err(Error::InvalidUtf8);
            },
        }
    }
    assert(texts(tokens@) + Seq::<Seq<char>>::empty() =~= texts(tokens@));
    Ok(tokens)
}

/// A run ends at or behind its start and within the bytes.
pub proof fn lemma_run_end_bounds(b: Seq<u8>, i: int, numeric: bool)
    requires
        0 <= i <= b.len(),
    ensures
        i <= run_end(b, i, numeric) <= b.len(),
        i < b.len() && in_run(b[i], numeric) ==> i < run_end(b, i, numeric),
    decreases b.len() - i,
{
    if i < b.len() && in_run(b[i], numeric) {
        lemma_run_end_bounds(b, i + 1, numeric);
    }
}

/// Trimming ASCII text leaves ASCII text.
pub proof fn lemma_trimmed_ascii(s: Seq<char>)
    requires
        is_ascii_chars(s),
    ensures
        is_ascii_chars(trim_front(s)),
        is_ascii_chars(trim_back(s)),
        is_ascii_chars(trimmed(s)),
    decreases s.len(),
{
    if s.len() > 0 {
        lemma_trimmed_ascii(s.drop_first());
        lemma_trimmed_ascii(s.drop_last());
    }
    if trim_front(s).len() > 0 {
        lemma_trim_back_ascii(trim_front(s));
    }
}

/// Trimming the end of ASCII text leaves ASCII text.
proof fn lemma_trim_back_ascii(s: Seq<char>)
    requires
        is_ascii_chars(s),
    ensures
        is_ascii_chars(trim_back(s)),
    decreases s.len(),
{
    if s.len() > 0 {
        lemma_trim_back_ascii(s.drop_last());
    }
}

/// Bytes below 128 are UTF-8 text: the characters with these code points.
pub proof fn lemma_ascii_bytes(bytes: Seq<u8>)
    requires
        forall|k: int| 0 <= k < bytes.len() ==> bytes[k] < 128,
    ensures
        valid_utf8(bytes),
        decode_utf8(bytes) == Seq::new(bytes.len(), |k: int| bytes[k] as char),
{
    let chars = Seq::new(bytes.len(), |k: int| bytes[k] as char);
    assert(is_ascii_chars(chars));
    is_ascii_chars_encode_utf8(chars);
    assert(encode_utf8(chars) =~= bytes);
    encode_utf8_valid_utf8(chars);
    encode_utf8_decode_utf8(chars);
}

/// In ASCII text every character is one byte, so every part of the bytes is
/// UTF-8 text of its own: the characters at the same places.
pub proof fn lemma_ascii_part(chars: Seq<char>, i: int, j: int)
    requires
        is_ascii_chars(chars),
        0 <= i <= j <= chars.len(),
    ensures
        encode_utf8(chars).len() == chars.len(),
        valid_utf8(encode_utf8(chars).subrange(i, j)),
        decode_utf8(encode_utf8(chars).subrange(i, j)) == chars.subrange(i, j),
{
    is_ascii_chars_encode_utf8(chars);
    let part = encode_utf8(chars).subrange(i, j);
    lemma_ascii_bytes(part);
    assert(decode_utf8(part) =~= chars.subrange(i, j));
}

/// A token is not empty and ends within the bytes.
pub proof fn lemma_token_end_bounds(b: Seq<u8>, i: int)
    requires
        0 <= i < b.len(),
        is_glyph(b[i]) || is_numeric_byte(b[i]) || is_alphabetic_byte(b[i]),
    ensures
        i < token_end(b, i) <= b.len(),
{
    lemma_run_end_bounds(b, i, is_numeric_byte(b[i]));
}

/// A glyph is always a token: the one or two characters that it is written with.
pub proof fn lemma_glyph_token(b: Seq<u8>, i: int)
    requires
        0 <= i < b.len(),
        is_glyph(b[i]),
    ensures
        valid_utf8(b.subrange(i, glyph_end(b, i))),
        decode_utf8(b.subrange(i, glyph_end(b, i))) == if glyph_end(b, i) == i + 2 {
            seq![b[i] as char, '=']
        } else {
            seq![b[i] as char]
        },
{
    let token = b.subrange(i, glyph_end(b, i));
    lemma_ascii_bytes(token);
    assert(decode_utf8(token) =~= if glyph_end(b, i) == i + 2 {
        seq![b[i] as char, '=']
    } else {
        seq![b[i] as char]
    });
}

/// In ASCII text no run ends inside a character: the scan of its bytes fails
/// at an unknown character or not at all.
pub proof fn lemma_ascii_scan(chars: Seq<char>, i: int)
    requires
        is_ascii_chars(chars),
    ensures
        tokens_from(encode_utf8(chars), i) != Err::<Seq<Seq<char>>, Error>(Error::InvalidUtf8),
    decreases chars.len() - i,
{
    let b = encode_utf8(chars);
    is_ascii_chars_encode_utf8(chars);
    if 0 <= i < b.len() {
        if is_glyph(b[i]) || is_numeric_byte(b[i]) || is_alphabetic_byte(b[i]) {
            let j = token_end(b, i);
            lemma_run_end_bounds(b, i, is_numeric_byte(b[i]));
            lemma_ascii_part(chars, i, j);
            lemma_ascii_scan(chars, j);
        } else if is_whitespace_byte(b[i]) {
            lemma_ascii_scan(chars, i + 1);
        }
    }
}

/// Tokenizing ASCII text fails at an unknown character or not at all.
pub proof fn lemma_ascii_source(source: Seq<char>)
    requires
        is_ascii_chars(source),
    ensures
        tokenize_spec(source) != Err::<Seq<Seq<char>>, Error>(Error::InvalidUtf8),
{
    lemma_trimmed_ascii(source);
    lemma_ascii_scan(trimmed(source), 0);
}

} // verus!
