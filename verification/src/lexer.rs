//! Typed tokens, and the lexer: a cursor over raw tokens that classifies them
//! one at a time.

use vstd::prelude::*;
use crate::atom::{Atom, AtomView};
use crate::parser::ParseError;
use crate::text::{char_is_alphabetic, chars_of, is_alphabetic, same_text, texts};
use crate::tokenizer::{outcome, tokenize_spec, Error};

verus! {

/// A raw token with its kind.
#[derive(Debug, PartialEq)]
pub enum Token {
    /// A variable, by its name.
    Symbol(String),
    /// A number, by the text of its literal.
    Float(String),
    // Brackets
    LParen,
    RParen,
    // Arithmetic operators
    Plus,
    Minus,
    Multiply,
    Divide,
    Power,
    // Logical operators
    True,
    False,
    Equal,
    NotEqual,
    Not,
    Then,
    GreaterThan,
    LessThan,
    // Keywords
    If,
    Else,
    ElseIf,
    End,
    // Whitespace
    NewLine,
    // Assignment
    Assign,
    /// The end of the input.
    EOF,
    /// A raw token of no known kind, by its text.
    UnknownToken(String),
}

/// What a [`Token`] stands for, with texts as sequences of characters.
pub ghost enum TokenView {
    Symbol(Seq<char>),
    Float(Seq<char>),
    LParen,
    RParen,
    Plus,
    Minus,
    Multiply,
    Divide,
    Power,
    True,
    False,
    Equal,
    NotEqual,
    Not,
    Then,
    GreaterThan,
    LessThan,
    If,
    Else,
    ElseIf,
    End,
    NewLine,
    Assign,
    EOF,
    UnknownToken(Seq<char>),
}

impl View for Token {
    type V = TokenView;

    open spec fn view(&self) -> TokenView {
        match self {
            Token::Symbol(s) => TokenView::Symbol(s@),
            Token::Float(s) => TokenView::Float(s@),
            Token::LParen => TokenView::LParen,
            Token::RParen => TokenView::RParen,
            Token::Plus => TokenView::Plus,
            Token::Minus => TokenView::Minus,
            Token::Multiply => TokenView::Multiply,
            Token::Divide => TokenView::Divide,
            Token::Power => TokenView::Power,
            Token::True => TokenView::True,
            Token::False => TokenView::False,
            Token::Equal => TokenView::Equal,
            Token::NotEqual => TokenView::NotEqual,
            Token::Not => TokenView::Not,
            Token::Then => TokenView::Then,
            Token::GreaterThan => TokenView::GreaterThan,
            Token::LessThan => TokenView::LessThan,
            Token::If => TokenView::If,
            Token::Else => TokenView::Else,
            Token::ElseIf => TokenView::ElseIf,
            Token::End => TokenView::End,
            Token::NewLine => TokenView::NewLine,
            Token::Assign => TokenView::Assign,
            Token::EOF => TokenView::EOF,
            Token::UnknownToken(s) => TokenView::UnknownToken(s@),
        }
    }
}

/// How tightly a token binds as an infix operator; 0 for a token that is none.
pub open spec fn precedence_of(t: TokenView) -> int {
    match t {
        TokenView::Equal | TokenView::NotEqual => 5,
        TokenView::GreaterThan | TokenView::LessThan => 10,
        TokenView::Plus | TokenView::Minus => 20,
        TokenView::Multiply | TokenView::Divide => 30,
        TokenView::Power => 40,
        TokenView::Assign => 50,
        _ => 0,
    }
}

/// The atom that a literal or an operator token becomes in the tree.
pub open spec fn atom_of(t: TokenView) -> Option<AtomView> {
    match t {
        TokenView::Float(s) => Some(AtomView::Float(s)),
        TokenView::Plus => Some(AtomView::Plus),
        TokenView::Minus => Some(AtomView::Minus),
        TokenView::Power => Some(AtomView::Power),
        TokenView::Multiply => Some(AtomView::Multiply),
        TokenView::Divide => Some(AtomView::Divide),
        TokenView::Assign => Some(AtomView::Assign),
        TokenView::True => Some(AtomView::True),
        TokenView::False => Some(AtomView::False),
        TokenView::Equal => Some(AtomView::Equal),
        TokenView::NotEqual => Some(AtomView::NotEqual),
        TokenView::Not => Some(AtomView::Not),
        TokenView::GreaterThan => Some(AtomView::GreaterThan),
        TokenView::LessThan => Some(AtomView::LessThan),
        _ => None,
    }
}

/// Whether two tokens are of one kind, whatever text they carry.
pub open spec fn same_kind(a: TokenView, b: TokenView) -> bool {
    match (a, b) {
        (TokenView::Symbol(_), TokenView::Symbol(_)) => true,
        (TokenView::Float(_), TokenView::Float(_)) => true,
        (TokenView::UnknownToken(_), TokenView::UnknownToken(_)) => true,
        (TokenView::Symbol(_), _) | (_, TokenView::Symbol(_)) => false,
        (TokenView::Float(_), _) | (_, TokenView::Float(_)) => false,
        (TokenView::UnknownToken(_), _) | (_, TokenView::UnknownToken(_)) => false,
        _ => a == b,
    }
}

impl Token {
    /// The atom that this token becomes in the tree: a number, a truth value or
    /// an operator. Other tokens have none.
    pub fn to_atom(&self) -> (r: Option<Atom>)
        ensures
            r is Some <==> atom_of(self@) is Some,
            r matches Some(a) ==> Some(a@) == atom_of(self@),
    {
        match self {
            Token::Float(value) => Some(Atom::Float(value.clone())),
            Token::Plus => Some(Atom::Plus),
            Token::Minus => Some(Atom::Minus),
            Token::Power => Some(Atom::Power),
            Token::Multiply => Some(Atom::Multiply),
            Token::Divide => Some(Atom::Divide),
            Token::Assign => Some(Atom::Assign),
            Token::True => Some(Atom::True),
            Token::False => Some(Atom::False),
            Token::Equal => Some(Atom::Equal),
            Token::NotEqual => Some(Atom::NotEqual),
            Token::Not => Some(Atom::Not),
            Token::GreaterThan => Some(Atom::GreaterThan),
            Token::LessThan => Some(Atom::LessThan),
            _ => None,
        }
    }

    /// How tightly this token binds as an infix operator: equality 5, comparison
    /// 10, sum and difference 20, product and quotient 30, power 40, assignment
    /// 50, and 0 for a token that is no infix operator.
    pub fn precedence(&self) -> (r: isize)
        ensures
            r == precedence_of(self@),
    {
        match self {
            Token::Equal => 5,
            Token::NotEqual => 5,
            Token::GreaterThan => 10,
            Token::LessThan => 10,
            Token::Plus => 20,
            Token::Minus => 20,
            Token::Multiply => 30,
            Token::Divide => 30,
            Token::Power => 40,
            Token::Assign => 50,
            _ => 0,
        }
    }

    /// Whether `self` and `other` are of one kind, whatever text they carry.
    pub fn is_kind(&self, other: &Token) -> (r: bool)
        ensures
            r == same_kind(self@, other@),
    {
        match (self, other) {
            (Token::Symbol(_), Token::Symbol(_)) => true,
            (Token::Float(_), Token::Float(_)) => true,
            (Token::LParen, Token::LParen) => true,
            (Token::RParen, Token::RParen) => true,
            (Token::Plus, Token::Plus) => true,
            (Token::Minus, Token::Minus) => true,
            (Token::Multiply, Token::Multiply) => true,
            (Token::Divide, Token::Divide) => true,
            (Token::Power, Token::Power) => true,
            (Token::True, Token::True) => true,
            (Token::False, Token::False) => true,
            (Token::Equal, Token::Equal) => true,
            (Token::NotEqual, Token::NotEqual) => true,
            (Token::Not, Token::Not) => true,
            (Token::Then, Token::Then) => true,
            (Token::GreaterThan, Token::GreaterThan) => true,
            (Token::LessThan, Token::LessThan) => true,
            (Token::If, Token::If) => true,
            (Token::Else, Token::Else) => true,
            (Token::ElseIf, Token::ElseIf) => true,
            (Token::End, Token::End) => true,
            (Token::NewLine, Token::NewLine) => true,
            (Token::Assign, Token::Assign) => true,
            (Token::EOF, Token::EOF) => true,
            (Token::UnknownToken(_), Token::UnknownToken(_)) => true,
            _ => false,
        }
    }
}

/// Whether `c` is one of the ten ASCII digits.
pub open spec fn is_digit(c: char) -> bool {
    '0' <= c <= '9'
}

/// Whether `c` is a sign.
pub open spec fn is_sign(c: char) -> bool {
    c == '+' || c == '-'
}

/// Where the maximal run of digits that starts at `i` ends.
pub open spec fn digits_end(s: Seq<char>, i: int) -> int
    decreases s.len() - i,
{
    if 0 <= i < s.len() && is_digit(s[i]) {
        digits_end(s, i + 1)
    } else {
        i
    }
}

/// The index behind the sign at `i`, or `i` where no sign stands there.
pub open spec fn after_sign(s: Seq<char>, i: int) -> int {
    if 0 <= i < s.len() && is_sign(s[i]) {
        i + 1
    } else {
        i
    }
}

/// An ASCII capital as its small letter, any other character as it is.
pub open spec fn lower(c: char) -> char {
    if 'A' <= c <= 'Z' {
        ((c as u8) + 32) as char
    } else {
        c
    }
}

/// Whether `s` from `from` to its end is `word`, but for the case of ASCII letters.
pub open spec fn spells(s: Seq<char>, from: int, word: Seq<char>) -> bool {
    &&& s.len() - from == word.len()
    &&& forall|k: int| 0 <= k < word.len() ==> lower(#[trigger] s[from + k]) == word[k]
}

/// Whether `s` from `from` to its end is an exponent: `e` or `E`, an optional
/// sign and at least one digit.
pub open spec fn is_exponent(s: Seq<char>, from: int) -> bool {
    let begin = after_sign(s, from + 1);
    let end = digits_end(s, begin);
    &&& 0 <= from < s.len()
    &&& lower(s[from]) == 'e'
    &&& begin < end
    &&& end == s.len()
}

/// Whether `s` from `from` to its end is a decimal number: digits with at most
/// one point among them, at least one digit in all, and an optional exponent.
pub open spec fn is_decimal(s: Seq<char>, from: int) -> bool {
    let whole = digits_end(s, from);
    let point = whole < s.len() && s[whole] == '.';
    let end = if point {
        digits_end(s, whole + 1)
    } else {
        whole
    };
    let digits = if point {
        end - from - 1
    } else {
        end - from
    };
    &&& 0 <= from
    &&& digits > 0
    &&& (end == s.len() || is_exponent(s, end))
}

/// Whether `s` is the literal of a number: an optional sign, then `inf`,
/// `infinity` or `nan` in any case, or a decimal number.
pub open spec fn is_float_literal(s: Seq<char>) -> bool {
    let from = after_sign(s, 0);
    ||| spells(s, from, seq!['i', 'n', 'f'])
    ||| spells(s, from, seq!['i', 'n', 'f', 'i', 'n', 'i', 't', 'y'])
    ||| spells(s, from, seq!['n', 'a', 'n'])
    ||| is_decimal(s, from)
}

/// Whether `s` can name a variable: every character of it is alphabetic.
pub open spec fn is_symbol(s: Seq<char>) -> bool {
    forall|i: int| 0 <= i < s.len() ==> is_alphabetic(#[trigger] s[i])
}

/// The token that a raw token stands for. Operators and keywords come first, then
/// numbers, then names; anything else is unknown.
pub open spec fn classify(raw: Seq<char>) -> TokenView {
    if raw == "+"@ {
        TokenView::Plus
    } else if raw == "-"@ {
        TokenView::Minus
    } else if raw == "/"@ {
        TokenView::Divide
    } else if raw == "*"@ {
        TokenView::Multiply
    } else if raw == "^"@ {
        TokenView::Power
    } else if raw == "!"@ {
        TokenView::Not
    } else if raw == "<"@ {
        TokenView::LessThan
    } else if raw == ">"@ {
        TokenView::GreaterThan
    } else if raw == "="@ {
        TokenView::Assign
    } else if raw == "=="@ {
        TokenView::Equal
    } else if raw == "!="@ {
        TokenView::NotEqual
    } else if raw == "("@ {
        TokenView::LParen
    } else if raw == ")"@ {
        TokenView::RParen
    } else if raw == "if"@ {
        TokenView::If
    } else if raw == "then"@ {
        TokenView::Then
    } else if raw == "else"@ {
        TokenView::Else
    } else if raw == "elseif"@ {
        TokenView::ElseIf
    } else if raw == "end"@ {
        TokenView::End
    } else if raw == "\n"@ {
        TokenView::NewLine
    } else if raw == "false"@ {
        TokenView::False
    } else if raw == "true"@ {
        TokenView::True
    } else if is_float_literal(raw) {
        TokenView::Float(raw)
    } else if is_symbol(raw) {
        TokenView::Symbol(raw)
    } else {
        TokenView::UnknownToken(raw)
    }
}

/// Walks to the end of the run of digits that starts at `from`.
fn skip_digits(s: &Vec<char>, from: usize) -> (end: usize)
    requires
        from <= s@.len(),
    ensures
        end == digits_end(s@, from as int),
        from <= end <= s@.len(),
{
    let mut i: usize = from;
    while i < s.len() && '0' <= s[i] && s[i] <= '9'
        invariant
            from <= i <= s@.len(),
            digits_end(s@, from as int) == digits_end(s@, i as int),
        decreases s@.len() - i,
    {
        i += 1;
    }
    i
}

/// Steps over a sign at `from`, if one stands there.
fn skip_sign(s: &Vec<char>, from: usize) -> (end: usize)
    requires
        from <= s@.len(),
    ensures
        end == after_sign(s@, from as int),
        from <= end <= s@.len(),
{
    if from < s.len() && (s[from] == '+' || s[from] == '-') {
        from + 1
    } else {
        from
    }
}

/// An ASCII capital as its small letter, any other character as it is.
fn to_lower(c: char) -> (r: char)
    ensures
        r == lower(c),
{
    if 'A' <= c && c <= 'Z' {
        ((c as u8) + 32) as char
    } else {
        c
    }
}

/// Whether `s` from `from` to its end is `word`, but for the case of ASCII letters.
fn spells_word(s: &Vec<char>, from: usize, word: &[char]) -> (r: bool)
    requires
        from <= s@.len(),
    ensures
        r == spells(s@, from as int, word@),
{
    if s.len() - from != word.len() {
        return false;
    }
    let mut k: usize = 0;
    while k < word.len()
        invariant
            from <= s@.len() <= usize::MAX,
            s@.len() - from == word@.len(),
            k <= word@.len(),
            forall|j: int| 0 <= j < k ==> lower(#[trigger] s@[from + j]) == word@[j],
        decreases word@.len() - k,
    {
        if to_lower(s[from + k]) != word[k] {
            return false;
        }
        k += 1;
    }
    true
}

/// Whether `s` from `from` to its end is an exponent.
fn exponent_at(s: &Vec<char>, from: usize) -> (r: bool)
    requires
        from <= s@.len(),
    ensures
        r == is_exponent(s@, from as int),
{
    if from >= s.len() || to_lower(s[from]) != 'e' {
        return false;
    }
    let begin = skip_sign(s, from + 1);
    let end = skip_digits(s, begin);
    begin < end && end == s.len()
}

/// Whether `s` from `from` to its end is a decimal number.
fn decimal_at(s: &Vec<char>, from: usize) -> (r: bool)
    requires
        from <= s@.len(),
    ensures
        r == is_decimal(s@, from as int),
{
    let whole = skip_digits(s, from);
    let point = whole < s.len() && s[whole] == '.';
    let end = if point {
        skip_digits(s, whole + 1)
    } else {
        whole
    };
    let digits = if point {
        end - from - 1
    } else {
        end - from
    };
    digits > 0 && (end == s.len() || exponent_at(s, end))
}

/// Whether `s` is the literal of a number, as the standard library reads one
/// from a string: an optional sign, then `inf`, `infinity` or `nan` in any case,
/// or decimal digits with an optional point and an optional exponent.
pub fn is_f64(s: &str) -> (r: bool)
    ensures
        r == is_float_literal(s@),
{
    let chars = chars_of(s);
    let from = skip_sign(&chars, 0);
    let inf = ['i', 'n', 'f'];
    let infinity = ['i', 'n', 'f', 'i', 'n', 'i', 't', 'y'];
    let nan = ['n', 'a', 'n'];
    assert(inf@ =~= seq!['i', 'n', 'f']);
    assert(infinity@ =~= seq!['i', 'n', 'f', 'i', 'n', 'i', 't', 'y']);
    assert(nan@ =~= seq!['n', 'a', 'n']);
    spells_word(&chars, from, inf.as_slice()) || spells_word(&chars, from, infinity.as_slice())
        || spells_word(&chars, from, nan.as_slice()) || decimal_at(&chars, from)
}

/// Whether `s` can name a variable: every character of it is alphabetic.
pub fn is_valid_symbol(s: &str) -> (r: bool)
    ensures
        r == is_symbol(s@),
{
    let chars = chars_of(s);
    let mut i: usize = 0;
    while i < chars.len()
        invariant
            chars@ == s@,
            i <= chars@.len(),
            forall|j: int| 0 <= j < i ==> is_alphabetic(#[trigger] chars@[j]),
        decreases chars@.len() - i,
    {
        if !char_is_alphabetic(chars[i]) {
            return false;
        }
        i += 1;
    }
    true
}

/// The token that a raw token stands for.
pub fn str_to_token(token: &str) -> (t: Token)
    ensures
        t@ == classify(token@),
{
    if same_text(token, "+") {
        Token::Plus
    } else if same_text(token, "-") {
        Token::Minus
    } else if same_text(token, "/") {
        Token::Divide
    } else if same_text(token, "*") {
        Token::Multiply
    } else if same_text(token, "^") {
        Token::Power
    } else if same_text(token, "!") {
        Token::Not
    } else if same_text(token, "<") {
        Token::LessThan
    } else if same_text(token, ">") {
        Token::GreaterThan
    } else if same_text(token, "=") {
        Token::Assign
    } else if same_text(token, "==") {
        Token::Equal
    } else if same_text(token, "!=") {
        Token::NotEqual
    } else if same_text(token, "(") {
        Token::LParen
    } else if same_text(token, ")") {
        Token::RParen
    } else if same_text(token, "if") {
        Token::If
    } else if same_text(token, "then") {
        Token::Then
    } else if same_text(token, "else") {
        Token::Else
    } else if same_text(token, "elseif") {
        Token::ElseIf
    } else if same_text(token, "end") {
        Token::End
    } else if same_text(token, "\n") {
        Token::NewLine
    } else if same_text(token, "false") {
        Token::False
    } else if same_text(token, "true") {
        Token::True
    } else if is_f64(token) {
        Token::Float(token.to_owned())
    } else if is_valid_symbol(token) {
        Token::Symbol(token.to_owned())
    } else {
        Token::UnknownToken(token.to_owned())
    }
}

/// The first token at or behind `at` that is no line break, unfused; the end of
/// input where there is none.
pub open spec fn peek_at(raw: Seq<Seq<char>>, at: int) -> TokenView
    decreases raw.len() - at,
{
    if 0 <= at < raw.len() {
        let t = classify(raw[at]);
        if t is NewLine {
            peek_at(raw, at + 1)
        } else {
            t
        }
    } else {
        TokenView::EOF
    }
}

/// The token that is read at `at`, and where the cursor stands afterwards.
///
/// Line breaks are stepped over. An assignment sign that is followed by another
/// is read as one equality sign, and a negation that is followed by an
/// assignment sign as one inequality sign; the cursor then moves on by two. At
/// the end of input the cursor stays.
pub open spec fn next_at(raw: Seq<Seq<char>>, at: int) -> (TokenView, int)
    decreases raw.len() - at,
{
    if 0 <= at < raw.len() {
        let t = classify(raw[at]);
        if t is NewLine {
            next_at(raw, at + 1)
        } else if t is Assign && peek_at(raw, at + 1) is Assign {
            (TokenView::Equal, at + 2)
        } else if t is Not && peek_at(raw, at + 1) is Assign {
            (TokenView::NotEqual, at + 2)
        } else {
            (t, at + 1)
        }
    } else {
        (TokenView::EOF, at)
    }
}

/// The tokens that are read from `at` on until the end of input shows.
pub open spec fn all_from(raw: Seq<Seq<char>>, at: int) -> Seq<TokenView>
    decreases raw.len() - at,
{
    if 0 <= at && !(peek_at(raw, at) is EOF) {
        proof {
            lemma_next_moves(raw, at);
        }
        seq![next_at(raw, at).0] + all_from(raw, next_at(raw, at).1)
    } else {
        Seq::empty()
    }
}

/// Where the cursor stands once the tokens from `at` on have all been read.
pub open spec fn all_end(raw: Seq<Seq<char>>, at: int) -> int
    decreases raw.len() - at,
{
    if 0 <= at && !(peek_at(raw, at) is EOF) {
        proof {
            lemma_next_moves(raw, at);
        }
        all_end(raw, next_at(raw, at).1)
    } else {
        at
    }
}

/// Reading a token never moves the cursor back nor past the end, and moves it
/// on wherever a token is left; what is read there is not the end of input.
pub proof fn lemma_next_moves(raw: Seq<Seq<char>>, at: int)
    ensures
        at <= next_at(raw, at).1,
        at <= raw.len() ==> next_at(raw, at).1 <= raw.len(),
        !(peek_at(raw, at) is EOF) ==> at < next_at(raw, at).1 && at < raw.len() && !(next_at(
            raw,
            at,
        ).0 is EOF),
        peek_at(raw, at) is EOF <==> next_at(raw, at).0 is EOF,
        !(next_at(raw, at).0 is NewLine),
        !(peek_at(raw, at) is NewLine),
    decreases raw.len() - at,
{
    if 0 <= at < raw.len() {
        lemma_next_moves(raw, at + 1);
    }
}

/// The views of a sequence of tokens.
pub open spec fn token_views(s: Seq<Token>) -> Seq<TokenView> {
    Seq::new(s.len(), |i: int| s[i]@)
}

/// A cursor over raw tokens.
pub struct Lexer {
    tokens: Vec<String>,
    idx: usize,
}

impl Lexer {
    #[verifier::type_invariant]
    spec fn in_bounds(self) -> bool {
        self.idx <= self.tokens@.len()
    }

    /// The texts of the raw tokens.
    pub closed spec fn raw(&self) -> Seq<Seq<char>> {
        texts(self.tokens@)
    }

    /// The index of the raw token that the cursor stands at.
    pub closed spec fn pos(&self) -> int {
        self.idx as int
    }

    /// A lexer at the first of `tokens`.
    pub fn new(tokens: Vec<String>) -> (r: Self)
        ensures
            r.raw() == texts(tokens@),
            r.pos() == 0,
    {
        Lexer { tokens, idx: 0 }
    }

    /// Reads the token at the cursor and moves the cursor behind it.
    pub fn next(&mut self) -> (t: Token)
        ensures
            t@ == next_at(old(self).raw(), old(self).pos()).0,
            final(self).pos() == next_at(old(self).raw(), old(self).pos()).1,
            final(self).raw() == old(self).raw(),
            0 <= old(self).pos() <= final(self).pos() <= final(self).raw().len(),
    {
        proof {
            use_type_invariant(&*self);
            lemma_next_moves(self.raw(), self.pos());
        }
        while self.idx < self.tokens.len()
            invariant
                old(self).idx <= self.idx <= self.tokens@.len(),
                self.tokens == old(self).tokens,
                next_at(old(self).raw(), old(self).pos()) == next_at(self.raw(), self.pos()),
            decreases self.tokens@.len() - self.idx,
        {
            let token = str_to_token(self.tokens[self.idx].as_str());
            if let Token::NewLine = token {
                self.idx += 1;
                continue ;
            }
            let next_token = self.peek(1);
            proof {
                lemma_next_moves(self.raw(), self.pos());
            }
            match (&token, &next_token) {
                (Token::Assign, Token::Assign) => {
                    self.idx += 2;
                    return Token::Equal;
                },
                (Token::Not, Token::Assign) => {
                    self.idx += 2;
                    return Token::NotEqual;
                },
                _ => {
                    self.idx += 1;
                    return token;
                },
            }
        }
        Token::EOF
    }

    /// The token `n` places ahead of the cursor, which stays where it is. Line
    /// breaks from that place on are stepped over; beyond the last raw token stands
    /// the end of input.
    pub fn peek(&self, n: usize) -> (t: Token)
        ensures
            t@ == peek_at(self.raw(), self.pos() + n),
            0 <= self.pos() <= self.raw().len(),
    {
        proof {
            use_type_invariant(self);
        }
        if n >= self.tokens.len() - self.idx {
            return Token::EOF;
        }
        let mut at: usize = self.idx + n;
        while at < self.tokens.len()
            invariant
                self.idx + n <= at <= self.tokens@.len(),
                peek_at(self.raw(), self.pos() + n) == peek_at(self.raw(), at as int),
            decreases self.tokens@.len() - at,
        {
            let token = str_to_token(self.tokens[at].as_str());
            if let Token::NewLine = token {
                at += 1;
            } else {
                return token;
            }
        }
        Token::EOF
    }

    /// Reads the next token and checks that it is of the kind of `token`, whatever
    /// text the two carry.
    pub fn expect(&mut self, token: &Token) -> (r: Result<Token, ParseError>)
        ensures
            final(self).pos() == next_at(old(self).raw(), old(self).pos()).1,
            final(self).raw() == old(self).raw(),
            r is Ok <==> same_kind(token@, next_at(old(self).raw(), old(self).pos()).0),
            r matches Ok(t) ==> t@ == next_at(old(self).raw(), old(self).pos()).0,
            r matches Err(e) ==> e == ParseError::UnexpectedToken,
            0 <= old(self).pos() <= final(self).pos() <= final(self).raw().len(),
    {
        let next_token = self.next();
        if token.is_kind(&next_token) {
            Ok(next_token)
        } else {
            Err(ParseError::UnexpectedToken)
        }
    }

    /// Reads all tokens that are left.
    pub fn all(&mut self) -> (r: Vec<Token>)
        ensures
            token_views(r@) == all_from(old(self).raw(), old(self).pos()),
            final(self).pos() == all_end(old(self).raw(), old(self).pos()),
            final(self).raw() == old(self).raw(),
            0 <= old(self).pos() <= final(self).pos() <= final(self).raw().len(),
    {
        let mut tokens: Vec<Token> = Vec::new();
        assert(token_views(tokens@) =~= Seq::<TokenView>::empty());
        proof {
            use_type_invariant(&*self);
        }
        let mut more = !self.peek(0).is_kind(&Token::EOF);
        while more
            invariant
                self.raw() == old(self).raw(),
                0 <= old(self).pos() <= self.pos() <= self.raw().len(),
                more == !(peek_at(self.raw(), self.pos()) is EOF),
                all_from(old(self).raw(), old(self).pos()) == token_views(tokens@) + all_from(
                    self.raw(),
                    self.pos(),
                ),
                all_end(old(self).raw(), old(self).pos()) == all_end(self.raw(), self.pos()),
            decreases self.raw().len() - self.pos(),
        {
            proof {
                lemma_next_moves(self.raw(), self.pos());
            }
            let ghost before = token_views(tokens@);
            let ghost rest = all_from(self.raw(), self.pos());
            let token = self.next();
            tokens.push(token);
            assert(token_views(tokens@) =~= before + seq![token@]);
            assert(before + rest =~= token_views(tokens@) + all_from(self.raw(), self.pos()));
            more = !self.peek(0).is_kind(&Token::EOF);
        }
        assert(token_views(tokens@) + Seq::<TokenView>::empty() =~= token_views(tokens@));
        tokens
    }
}

/// Tokenizing and lexing are functions of the source alone: where one source is
/// tokenized twice, both outcomes are the same, and lexers over the two token
/// vectors read the same tokens and stop at the same place.
pub proof fn lemma_same_source_same_tokens(
    source: Seq<char>,
    first: Result<Vec<String>, Error>,
    second: Result<Vec<String>, Error>,
)
    requires
        outcome(first) == tokenize_spec(source),
        outcome(second) == tokenize_spec(source),
    ensures
        outcome(first) == outcome(second),
        first matches Ok(a) ==> second matches Ok(b) && texts(a@) == texts(b@) && all_from(
            texts(a@),
            0,
        ) == all_from(texts(b@), 0) && all_end(texts(a@), 0) == all_end(texts(b@), 0),
{
}

} // verus!
