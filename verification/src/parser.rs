//! The parser: precedence climbing over the lexer's tokens.

use vstd::prelude::*;
use crate::atom::{trees, well_formed, AstView, Atom, AtomView, AST};
use crate::lexer::{
    atom_of, lemma_next_moves, next_at, peek_at, precedence_of, same_kind, Lexer, Token, TokenView,
};
use crate::text::texts;

verus! {

/// Why a token sequence is no program.
#[derive(Debug, Clone, Copy, PartialEq)]
pub enum ParseError {
    /// A token of another kind stood where a closing bracket, `then` or `end`
    /// was due.
    UnexpectedToken,
    /// A token that cannot begin an expression stood where one was due.
    NoPrefixRule,
    /// A token that cannot continue an expression was taken as an operator.
    NoInfixRule,
    /// The branch of a conditional was followed by something other than `end`,
    /// `else` or `elseif`.
    UnclosedIf,
}

/// What a parsing rule gives: a value or the failure, and where the cursor
/// stands afterwards.
pub ghost struct Parsed<T> {
    pub value: Result<T, ParseError>,
    pub at: int,
}

/// Whether the cursor moved on from `from` to `to` within the raw tokens.
///
/// The rules below ask this of a cursor before they go on from it, which lets
/// them be defined by recursion on what is left to read. It always holds there:
/// see [`lemma_expr_at`] and the lemmas beside it.
pub open spec fn moved(raw: Seq<Seq<char>>, from: int, to: int) -> bool {
    from < to <= raw.len()
}

/// A leaf at the cursor.
pub open spec fn leaf(a: AtomView, at: int) -> Parsed<AstView> {
    Parsed { value: Ok(AstView::Atom(a)), at }
}

/// A failure at the cursor.
pub open spec fn failed<T>(e: ParseError, at: int) -> Parsed<T> {
    Parsed { value: Err(e), at }
}

/// Reads the token at `at` and gives `tree` if it is of the kind of `kind`.
pub open spec fn closed_by(raw: Seq<Seq<char>>, at: int, kind: TokenView, tree: AstView) -> Parsed<
    AstView,
> {
    let (t, p) = next_at(raw, at);
    if same_kind(kind, t) {
        Parsed { value: Ok(tree), at: p }
    } else {
        failed(ParseError::UnexpectedToken, p)
    }
}

/// Whether a token ends a block: the end of input, `end`, `else` or `elseif`.
pub open spec fn ends_block(t: TokenView) -> bool {
    t is EOF || t is End || t is Else || t is ElseIf
}

/// One expression from `at` on whose operators all bind tighter than `floor`.
///
/// The first token starts the expression by its prefix rule; then, as long as the
/// token ahead binds tighter than `floor`, it is read and continues the
/// expression by its infix rule.
pub open spec fn expr_at(raw: Seq<Seq<char>>, at: int, floor: int) -> Parsed<AstView>
    decreases raw.len() - at, 1int,
{
    let (t, p) = next_at(raw, at);
    if 0 <= at < p {
        proof {
            lemma_next_moves(raw, at);
        }
        let first = prefix_at(raw, p, t);
        match first.value {
            Ok(left) => {
                if moved(raw, at, first.at) {
                    climb_at(raw, first.at, floor, left)
                } else {
                    failed(ParseError::NoPrefixRule, first.at)
                }
            },
            Err(e) => failed(e, first.at),
        }
    } else {
        failed(ParseError::NoPrefixRule, p)
    }
}

/// The expression that `left` grows into from `at` on, by the operators that
/// bind tighter than `floor`.
pub open spec fn climb_at(raw: Seq<Seq<char>>, at: int, floor: int, left: AstView) -> Parsed<
    AstView,
>
    decreases raw.len() - at, 0int,
{
    if 0 <= at && precedence_of(peek_at(raw, at)) > floor {
        proof {
            lemma_next_moves(raw, at);
        }
        let (t, p) = next_at(raw, at);
        if t is EOF {
            Parsed { value: Ok(left), at: p }
        } else {
            let grown = infix_at(raw, p, left, t);
            match grown.value {
                Ok(tree) => {
                    if moved(raw, at, grown.at) {
                        climb_at(raw, grown.at, floor, tree)
                    } else {
                        failed(ParseError::NoInfixRule, grown.at)
                    }
                },
                Err(e) => failed(e, grown.at),
            }
        }
    } else {
        Parsed { value: Ok(left), at }
    }
}

/// The prefix rule of `t`, which was read just before `at`.
///
/// A number, a truth value or a name is a leaf. An opening bracket holds one
/// expression and its closing bracket. A plus sign stands for its operand; a
/// minus sign makes a node with the name `-` at its head and the operand below.
/// `if` and `elseif` begin a conditional, `else` a block that `end` closes.
pub open spec fn prefix_at(raw: Seq<Seq<char>>, at: int, t: TokenView) -> Parsed<AstView>
    decreases raw.len() - at, 4int,
{
    match t {
        TokenView::False => leaf(AtomView::False, at),
        TokenView::True => leaf(AtomView::True, at),
        TokenView::Float(text) => leaf(AtomView::Float(text), at),
        TokenView::Symbol(name) => leaf(AtomView::Symbol(name), at),
        TokenView::LParen => {
            let inner = expr_at(raw, at, 0);
            match inner.value {
                Ok(tree) => closed_by(raw, inner.at, TokenView::RParen, tree),
                Err(e) => failed(e, inner.at),
            }
        },
        TokenView::Plus => expr_at(raw, at, 20),
        TokenView::Minus => {
            let operand = expr_at(raw, at, 20);
            match operand.value {
                Ok(tree) => Parsed {
                    value: Ok(AstView::Node { head: AtomView::Symbol("-"@), tail: seq![tree] }),
                    at: operand.at,
                },
                Err(e) => failed(e, operand.at),
            }
        },
        TokenView::If => conditional_at(raw, at, AtomView::If),
        TokenView::ElseIf => conditional_at(raw, at, AtomView::ElseIf),
        TokenView::Else => {
            let block = block_at(raw, at);
            match block.value {
                Ok(tree) => closed_by(raw, block.at, TokenView::End, tree),
                Err(e) => failed(e, block.at),
            }
        },
        _ => failed(ParseError::NoPrefixRule, at),
    }
}

/// A conditional whose `if` or `elseif` was read just before `at`: a condition,
/// `then`, a block, and then either `end`, which leaves nothing as the other
/// branch, or an `else` or `elseif` part, which is the other branch.
pub open spec fn conditional_at(raw: Seq<Seq<char>>, at: int, head: AtomView) -> Parsed<AstView>
    decreases raw.len() - at, 2int,
{
    let condition = expr_at(raw, at, 0);
    match condition.value {
        Ok(test) => {
            let (t, p) = next_at(raw, condition.at);
            if !(t is Then) {
                failed(ParseError::UnexpectedToken, p)
            } else if !moved(raw, at, p) {
                failed(ParseError::NoPrefixRule, p)
            } else {
                let block = block_at(raw, p);
                match block.value {
                    Ok(body) => {
                        let ahead = peek_at(raw, block.at);
                        if ahead is End {
                            Parsed {
                                value: Ok(
                                    AstView::Node {
                                        head,
                                        tail: seq![test, body, AstView::Atom(AtomView::Nothing)],
                                    },
                                ),
                                at: next_at(raw, block.at).1,
                            }
                        } else if ahead is Else || ahead is ElseIf {
                            if !moved(raw, at, block.at) {
                                failed(ParseError::NoPrefixRule, block.at)
                            } else {
                                let other = expr_at(raw, block.at, 0);
                                match other.value {
                                    Ok(rest) => Parsed {
                                        value: Ok(
                                            AstView::Node { head, tail: seq![test, body, rest] },
                                        ),
                                        at: other.at,
                                    },
                                    Err(e) => failed(e, other.at),
                                }
                            }
                        } else {
                            failed(ParseError::UnclosedIf, block.at)
                        }
                    },
                    Err(e) => failed(e, block.at),
                }
            }
        },
        Err(e) => failed(e, condition.at),
    }
}

/// The infix rule of `t`, which was read just before `at`, with `left` as its
/// left operand.
///
/// An arithmetic operator, a comparison or an assignment takes as its right
/// operand what binds tighter than itself, so it groups to the left. The power
/// operator takes what binds as tight as itself too, so it groups to the right.
pub open spec fn infix_at(raw: Seq<Seq<char>>, at: int, left: AstView, t: TokenView) -> Parsed<
    AstView,
>
    decreases raw.len() - at, 2int,
{
    match t {
        TokenView::Plus
        | TokenView::Minus
        | TokenView::Divide
        | TokenView::Multiply
        | TokenView::Assign
        | TokenView::GreaterThan
        | TokenView::LessThan
        | TokenView::Equal
        | TokenView::NotEqual
        | TokenView::Power => {
            let floor = if t is Power {
                precedence_of(t) - 1
            } else {
                precedence_of(t)
            };
            let operand = expr_at(raw, at, floor);
            match operand.value {
                Ok(right) => Parsed {
                    value: Ok(AstView::Node { head: atom_of(t)->0, tail: seq![left, right] }),
                    at: operand.at,
                },
                Err(e) => failed(e, operand.at),
            }
        },
        _ => failed(ParseError::NoInfixRule, at),
    }
}

/// The expressions from `at` up to the token that ends the block.
pub open spec fn items_at(raw: Seq<Seq<char>>, at: int) -> Parsed<Seq<AstView>>
    decreases raw.len() - at, 2int,
{
    if ends_block(peek_at(raw, at)) {
        Parsed { value: Ok(Seq::empty()), at }
    } else {
        let first = expr_at(raw, at, 0);
        match first.value {
            Ok(tree) => {
                if moved(raw, at, first.at) {
                    let others = items_at(raw, first.at);
                    match others.value {
                        Ok(trees) => Parsed { value: Ok(seq![tree] + trees), at: others.at },
                        Err(e) => failed(e, others.at),
                    }
                } else {
                    failed(ParseError::NoPrefixRule, first.at)
                }
            },
            Err(e) => failed(e, first.at),
        }
    }
}

/// A block from `at` on: the expressions up to the token that ends it, in order.
pub open spec fn block_at(raw: Seq<Seq<char>>, at: int) -> Parsed<AstView>
    decreases raw.len() - at, 3int,
{
    let items = items_at(raw, at);
    match items.value {
        Ok(trees) => Parsed {
            value: Ok(AstView::Node { head: AtomView::Block, tail: trees }),
            at: items.at,
        },
        Err(e) => failed(e, items.at),
    }
}

/// The outcome of a parsing function, with the tree taken by its view.
pub open spec fn tree_view(r: Result<AST, ParseError>) -> Result<AstView, ParseError> {
    match r {
        Ok(tree) => Ok(tree@),
        Err(e) => Err(e),
    }
}

/// The expressions `done` followed by those of `rest`; a failure in `rest` stays.
pub open spec fn items_after(done: Seq<AstView>, rest: Parsed<Seq<AstView>>) -> Parsed<
    Seq<AstView>,
> {
    match rest.value {
        Ok(trees) => Parsed { value: Ok(done + trees), at: rest.at },
        Err(e) => failed(e, rest.at),
    }
}

/// A parser over the tokens of a lexer.
pub struct Parser {
    lexer: Lexer,
}

impl Parser {
    /// The texts of the raw tokens.
    pub closed spec fn raw(&self) -> Seq<Seq<char>> {
        self.lexer.raw()
    }

    /// The index of the raw token that the cursor stands at.
    pub closed spec fn pos(&self) -> int {
        self.lexer.pos()
    }

    /// A parser that reads from `lexer`, from where its cursor stands.
    pub fn new(lexer: Lexer) -> (r: Self)
        ensures
            r.raw() == lexer.raw(),
            r.pos() == lexer.pos(),
    {
        Parser { lexer }
    }

    /// Reads the next token and gives `tree` if the token is of the kind of `kind`.
    fn close(&mut self, kind: &Token, tree: AST) -> (r: Result<AST, ParseError>)
        requires
            0 <= old(self).pos() <= old(self).raw().len(),
        ensures
            tree_view(r) == closed_by(old(self).raw(), old(self).pos(), kind@, tree@).value,
            final(self).pos() == closed_by(old(self).raw(), old(self).pos(), kind@, tree@).at,
            final(self).raw() == old(self).raw(),
            0 <= old(self).pos() <= final(self).pos() <= final(self).raw().len(),
    {
        proof {
            lemma_next_moves(self.raw(), self.pos());
        }
        match self.lexer.expect(kind) {
            Ok(_) => Ok(tree),
            Err(e) => Err(e),
        }
    }

    /// The prefix rule of `token`, which was read just before the cursor.
    fn nud(&mut self, token: Token) -> (r: Result<AST, ParseError>)
        requires
            0 <= old(self).pos() <= old(self).raw().len(),
        ensures
            tree_view(r) == prefix_at(old(self).raw(), old(self).pos(), token@).value,
            final(self).pos() == prefix_at(old(self).raw(), old(self).pos(), token@).at,
            final(self).raw() == old(self).raw(),
            0 <= old(self).pos() <= final(self).pos() <= final(self).raw().len(),
        decreases old(self).raw().len() - old(self).pos(), 4int,
    {
        match token {
            Token::False => Ok(AST::Atom(Atom::False)),
            Token::True => Ok(AST::Atom(Atom::True)),
            Token::Float(value) => Ok(AST::Atom(Atom::Float(value))),
            Token::LParen => {
                match self._parse(0) {
                    Ok(inner) => self.close(&Token::RParen, inner),
                    Err(e) => Err(e),
                }
            },
            Token::Plus => self._parse(20),
            Token::Minus => {
                match self._parse(20) {
                    Ok(operand) => {
                        let mut tail: Vec<AST> = Vec::new();
                        tail.push(operand);
                        assert(trees(tail@) =~= seq![operand@]);
                        Ok(AST::node(Atom::Symbol("-".to_owned()), tail))
                    },
                    Err(e) => Err(e),
                }
            },
            Token::If => self.conditional(Atom::If),
            Token::ElseIf => self.conditional(Atom::ElseIf),
            Token::Else => {
                match self.parse_block() {
                    Ok(block) => self.close(&Token::End, block),
                    Err(e) => Err(e),
                }
            },
            Token::Symbol(value) => Ok(AST::Atom(Atom::Symbol(value))),
            _ => Err(ParseError::NoPrefixRule),
        }
    }

    /// A conditional whose `if` or `elseif` was read just before the cursor.
    fn conditional(&mut self, head: Atom) -> (r: Result<AST, ParseError>)
        requires
            0 <= old(self).pos() <= old(self).raw().len(),
        ensures
            tree_view(r) == conditional_at(old(self).raw(), old(self).pos(), head@).value,
            final(self).pos() == conditional_at(old(self).raw(), old(self).pos(), head@).at,
            final(self).raw() == old(self).raw(),
            0 <= old(self).pos() <= final(self).pos() <= final(self).raw().len(),
        decreases old(self).raw().len() - old(self).pos(), 2int,
    {
        let test = match self._parse(0) {
            Ok(tree) => tree,
            Err(e) => {
                return Err(e);
            },
        };
        proof {
            lemma_next_moves(self.raw(), self.pos());
        }
        match self.lexer.expect(&Token::Then) {
            Ok(_) => {},
            Err(e) => {
                return Err(e);
            },
        }
        let body = match self.parse_block() {
            Ok(tree) => tree,
            Err(e) => {
                return Err(e);
            },
        };
        proof {
            lemma_next_moves(self.raw(), self.pos());
        }
        let mut tail: Vec<AST> = Vec::new();
        match self.lexer.peek(0) {
            Token::End => {
                self.lexer.next();
                let nothing = AST::Atom(Atom::Nothing);
                tail.push(test);
                tail.push(body);
                tail.push(nothing);
                assert(trees(tail@) =~= seq![test@, body@, nothing@]);
                Ok(AST::node(head, tail))
            },
            Token::Else | Token::ElseIf => {
                match self._parse(0) {
                    Ok(rest) => {
                        tail.push(test);
                        tail.push(body);
                        tail.push(rest);
                        assert(trees(tail@) =~= seq![test@, body@, rest@]);
                        Ok(AST::node(head, tail))
                    },
                    Err(e) => Err(e),
                }
            },
            _ => Err(ParseError::UnclosedIf),
        }
    }

    /// The infix rule of `token`, which was read just before the cursor, with
    /// `left` as its left operand.
    fn led(&mut self, left: AST, token: Token) -> (r: Result<AST, ParseError>)
        requires
            0 <= old(self).pos() <= old(self).raw().len(),
        ensures
            tree_view(r) == infix_at(old(self).raw(), old(self).pos(), left@, token@).value,
            final(self).pos() == infix_at(old(self).raw(), old(self).pos(), left@, token@).at,
            final(self).raw() == old(self).raw(),
            0 <= old(self).pos() <= final(self).pos() <= final(self).raw().len(),
        decreases old(self).raw().len() - old(self).pos(), 2int,
    {
        match token {
            Token::Plus
            | Token::Minus
            | Token::Divide
            | Token::Multiply
            | Token::Assign
            | Token::GreaterThan
            | Token::LessThan
            | Token::Equal
            | Token::NotEqual
            | Token::Power => {
                let floor = if let Token::Power = token {
                    token.precedence() - 1
                } else {
                    token.precedence()
                };
                let right = match self._parse(floor) {
                    Ok(tree) => tree,
                    Err(e) => {
                        return Err(e);
                    },
                };
                match token.to_atom() {
                    Some(head) => {
                        let mut tail: Vec<AST> = Vec::new();
                        tail.push(left);
                        tail.push(right);
                        assert(trees(tail@) =~= seq![left@, right@]);
                        Ok(AST::node(head, tail))
                    },
                    None => Err(ParseError::NoInfixRule),
                }
            },
            _ => Err(ParseError::NoInfixRule),
        }
    }

    /// Parses expressions up to the end of input or up to `end`, `else` or
    /// `elseif`, which is left unread, and gives them as one block in order.
    pub fn parse_block(&mut self) -> (r: Result<AST, ParseError>)
        ensures
            tree_view(r) == block_at(old(self).raw(), old(self).pos()).value,
            final(self).pos() == block_at(old(self).raw(), old(self).pos()).at,
            final(self).raw() == old(self).raw(),
            0 <= old(self).pos() <= final(self).pos() <= final(self).raw().len(),
            r matches Ok(tree) ==> well_formed(tree@),
        decreases old(self).raw().len() - old(self).pos(), 3int,
    {
        let mut tail: Vec<AST> = Vec::new();
        assert(trees(tail@) =~= Seq::<AstView>::empty());
        proof {
            let rest = items_at(self.raw(), self.pos());
            if let Ok(more) = rest.value {
                assert(trees(tail@) + more =~= more);
            }
        }
        loop
            invariant
                self.raw() == old(self).raw(),
                old(self).pos() <= self.pos(),
                items_at(old(self).raw(), old(self).pos()) == items_after(
                    trees(tail@),
                    items_at(self.raw(), self.pos()),
                ),
            decreases self.raw().len() - self.pos(),
        {
            match self.lexer.peek(0) {
                Token::EOF | Token::End | Token::Else | Token::ElseIf => {
                    assert(trees(tail@) + Seq::<AstView>::empty() =~= trees(tail@));
                    proof {
                        lemma_block_at(self.raw(), old(self).pos());
                    }
                    return Ok(AST::node(Atom::Block, tail));
                },
                _ => {},
            }
            let ghost before = trees(tail@);
            match self._parse(0) {
                Ok(tree) => {
                    tail.push(tree);
                    proof {
                        assert(trees(tail@) =~= before + seq![tree@]);
                        let rest = items_at(self.raw(), self.pos());
                        if let Ok(more) = rest.value {
                            assert(before + (seq![tree@] + more) =~= trees(tail@) + more);
                        }
                    }
                },
                Err(e) => {
                    return Err(e);
                },
            }
        }
    }

    /// Parses one expression.
    ///
    /// On success at least one token was read, and the tree has the shape that the
    /// grammar gives.
    pub fn parse(&mut self) -> (r: Result<AST, ParseError>)
        ensures
            tree_view(r) == expr_at(old(self).raw(), old(self).pos(), 0).value,
            final(self).pos() == expr_at(old(self).raw(), old(self).pos(), 0).at,
            final(self).raw() == old(self).raw(),
            0 <= old(self).pos() <= final(self).pos() <= final(self).raw().len(),
            r matches Ok(tree) ==> old(self).pos() < final(self).pos() && well_formed(tree@),
    {
        proof {
            lemma_expr_at(self.raw(), self.pos(), 0);
        }
        self._parse(0)
    }

    /// Parses one expression whose operators all bind tighter than `precedence`.
    fn _parse(&mut self, precedence: isize) -> (r: Result<AST, ParseError>)
        ensures
            tree_view(r) == expr_at(old(self).raw(), old(self).pos(), precedence as int).value,
            final(self).pos() == expr_at(old(self).raw(), old(self).pos(), precedence as int).at,
            final(self).raw() == old(self).raw(),
            0 <= old(self).pos() <= final(self).pos() <= final(self).raw().len(),
            r is Ok ==> old(self).pos() < final(self).pos(),
        decreases old(self).raw().len() - old(self).pos(), 1int,
    {
        proof {
            lemma_next_moves(self.raw(), self.pos());
        }
        let ghost start = self.pos();
        let token = self.lexer.next();
        if let Token::EOF = token {
            return Err(ParseError::NoPrefixRule);
        }
        let mut left = match self.nud(token) {
            Ok(tree) => tree,
            Err(e) => {
                return Err(e);
            },
        };
        while self.lexer.peek(0).precedence() > precedence
            invariant
                self.raw() == old(self).raw(),
                start == old(self).pos(),
                start < self.pos() <= self.raw().len(),
                expr_at(old(self).raw(), start, precedence as int) == climb_at(
                    self.raw(),
                    self.pos(),
                    precedence as int,
                    left@,
                ),
            decreases self.raw().len() - self.pos(),
        {
            proof {
                lemma_next_moves(self.raw(), self.pos());
            }
            let token = self.lexer.next();
            if let Token::EOF = token {
                return Ok(left);
            }
            left = match self.led(left, token) {
                Ok(tree) => tree,
                Err(e) => {
                    return Err(e);
                },
            };
        }
        Ok(left)
    }
}

/// What holds of a rule's outcome that began at `at`: if it gave a tree, the
/// cursor did not move back nor past the end, and the tree has the shape that
/// the grammar gives.
pub open spec fn sound(raw: Seq<Seq<char>>, at: int, r: Parsed<AstView>) -> bool {
    r.value matches Ok(tree) ==> at <= r.at <= raw.len() && well_formed(tree)
}

/// An expression that was parsed took at least one token, ends within the raw
/// tokens, and is a well-formed tree.
pub proof fn lemma_expr_at(raw: Seq<Seq<char>>, at: int, floor: int)
    ensures
        sound(raw, at, expr_at(raw, at, floor)),
        expr_at(raw, at, floor).value is Ok ==> moved(raw, at, expr_at(raw, at, floor).at),
    decreases raw.len() - at, 1int,
{
    let (t, p) = next_at(raw, at);
    if 0 <= at < p {
        lemma_next_moves(raw, at);
        lemma_prefix_at(raw, p, t);
        let first = prefix_at(raw, p, t);
        if let Ok(left) = first.value {
            lemma_climb_at(raw, first.at, floor, left);
        }
    }
}

/// Growing a well-formed tree by infix operators keeps it well-formed.
pub proof fn lemma_climb_at(raw: Seq<Seq<char>>, at: int, floor: int, left: AstView)
    requires
        0 <= at <= raw.len(),
        well_formed(left),
    ensures
        sound(raw, at, climb_at(raw, at, floor, left)),
    decreases raw.len() - at, 0int,
{
    if precedence_of(peek_at(raw, at)) > floor {
        lemma_next_moves(raw, at);
        let (t, p) = next_at(raw, at);
        if !(t is EOF) {
            lemma_infix_at(raw, p, left, t);
            let grown = infix_at(raw, p, left, t);
            if let Ok(tree) = grown.value {
                lemma_climb_at(raw, grown.at, floor, tree);
            }
        }
    }
}

/// What a prefix rule gives is well-formed.
pub proof fn lemma_prefix_at(raw: Seq<Seq<char>>, at: int, t: TokenView)
    requires
        0 <= at <= raw.len(),
    ensures
        sound(raw, at, prefix_at(raw, at, t)),
    decreases raw.len() - at, 4int,
{
    match t {
        TokenView::LParen => {
            lemma_expr_at(raw, at, 0);
            lemma_next_moves(raw, expr_at(raw, at, 0).at);
        },
        TokenView::Plus => {
            lemma_expr_at(raw, at, 20);
        },
        TokenView::Minus => {
            lemma_expr_at(raw, at, 20);
        },
        TokenView::If => {
            lemma_conditional_at(raw, at, AtomView::If);
        },
        TokenView::ElseIf => {
            lemma_conditional_at(raw, at, AtomView::ElseIf);
        },
        TokenView::Else => {
            lemma_block_at(raw, at);
            lemma_next_moves(raw, block_at(raw, at).at);
        },
        _ => {},
    }
}

/// A conditional that was parsed is well-formed.
pub proof fn lemma_conditional_at(raw: Seq<Seq<char>>, at: int, head: AtomView)
    requires
        0 <= at <= raw.len(),
        head is If || head is ElseIf,
    ensures
        sound(raw, at, conditional_at(raw, at, head)),
    decreases raw.len() - at, 2int,
{
    lemma_expr_at(raw, at, 0);
    let condition = expr_at(raw, at, 0);
    if condition.value is Ok {
        lemma_next_moves(raw, condition.at);
        let (t, p) = next_at(raw, condition.at);
        if t is Then {
            lemma_block_at(raw, p);
            let block = block_at(raw, p);
            if let Ok(body) = block.value {
                lemma_next_moves(raw, block.at);
                let test = condition.value->Ok_0;
                let ahead = peek_at(raw, block.at);
                if ahead is End {
                    let nothing = AstView::Atom(AtomView::Nothing);
                    let tail = seq![test, body, nothing];
                    assert(well_formed(tail[0]) && well_formed(tail[1]) && well_formed(tail[2]));
                    assert(well_formed(AstView::Node { head, tail }));
                } else if ahead is Else || ahead is ElseIf {
                    lemma_expr_at(raw, block.at, 0);
                    if let Ok(rest) = expr_at(raw, block.at, 0).value {
                        let tail = seq![test, body, rest];
                        assert(well_formed(tail[0]) && well_formed(tail[1]) && well_formed(
                            tail[2],
                        ));
                        assert(well_formed(AstView::Node { head, tail }));
                    }
                }
            }
        }
    }
}

/// What an infix rule gives took at least one more token and is well-formed.
pub proof fn lemma_infix_at(raw: Seq<Seq<char>>, at: int, left: AstView, t: TokenView)
    requires
        0 <= at <= raw.len(),
        well_formed(left),
    ensures
        sound(raw, at, infix_at(raw, at, left, t)),
        infix_at(raw, at, left, t).value is Ok ==> moved(raw, at, infix_at(raw, at, left, t).at),
    decreases raw.len() - at, 2int,
{
    let floor = if t is Power {
        precedence_of(t) - 1
    } else {
        precedence_of(t)
    };
    lemma_expr_at(raw, at, floor);
}

/// The expressions of a block that was parsed are well-formed.
pub proof fn lemma_items_at(raw: Seq<Seq<char>>, at: int)
    requires
        0 <= at <= raw.len(),
    ensures
        items_at(raw, at).value matches Ok(trees) ==> at <= items_at(raw, at).at <= raw.len()
            && forall|i: int| 0 <= i < trees.len() ==> well_formed(#[trigger] trees[i]),
    decreases raw.len() - at, 2int,
{
    if !ends_block(peek_at(raw, at)) {
        lemma_expr_at(raw, at, 0);
        let first = expr_at(raw, at, 0);
        if first.value is Ok {
            lemma_items_at(raw, first.at);
        }
    }
}

/// A block that was parsed is well-formed.
pub proof fn lemma_block_at(raw: Seq<Seq<char>>, at: int)
    requires
        0 <= at <= raw.len(),
    ensures
        sound(raw, at, block_at(raw, at)),
    decreases raw.len() - at, 3int,
{
    lemma_items_at(raw, at);
}

} // verus!
