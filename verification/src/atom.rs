//! The syntax tree: atoms, which tag both leaves and operations, and nodes.

use vstd::prelude::*;

verus! {

/// The name of a variable.
#[derive(PartialEq, Debug)]
pub struct Symbol(pub String);

/// The words that the language reserves.
pub enum Keyword {
    If,
    Else,
    Fn,
}

/// A tag: the payload of a leaf, or the operation at the head of a node.
#[derive(PartialEq, Debug)]
pub enum Atom {
    // Leaves
    /// A variable, by its name.
    Symbol(String),
    String(String),
    /// A number, by the text of its literal.
    Float(String),
    True,
    False,
    // Arithmetic
    Plus,
    Minus,
    Multiply,
    Divide,
    Power,
    // Logic
    If,
    Else,
    ElseIf,
    Equal,
    NotEqual,
    Not,
    GreaterThan,
    LessThan,
    // Structure
    Assign,
    Block,
    Nothing,
    End,
}

/// An operation with its operands in order.
#[derive(PartialEq, Debug)]
pub struct Node {
    pub head: Atom,
    pub tail: Vec<AST>,
}

/// A syntax tree.
#[derive(PartialEq, Debug)]
pub enum AST {
    Node(Node),
    Atom(Atom),
}

/// What an [`Atom`] stands for, with texts as sequences of characters.
pub ghost enum AtomView {
    Symbol(Seq<char>),
    String(Seq<char>),
    Float(Seq<char>),
    True,
    False,
    Plus,
    Minus,
    Multiply,
    Divide,
    Power,
    If,
    Else,
    ElseIf,
    Equal,
    NotEqual,
    Not,
    GreaterThan,
    LessThan,
    Assign,
    Block,
    Nothing,
    End,
}

/// What an [`AST`] stands for.
pub ghost enum AstView {
    Node { head: AtomView, tail: Seq<AstView> },
    Atom(AtomView),
}

impl View for Symbol {
    type V = Seq<char>;

    open spec fn view(&self) -> Seq<char> {
        self.0@
    }
}

impl View for Atom {
    type V = AtomView;

    open spec fn view(&self) -> AtomView {
        match self {
            Atom::Symbol(s) => AtomView::Symbol(s@),
            Atom::String(s) => AtomView::String(s@),
            Atom::Float(s) => AtomView::Float(s@),
            Atom::True => AtomView::True,
            Atom::False => AtomView::False,
            Atom::Plus => AtomView::Plus,
            Atom::Minus => AtomView::Minus,
            Atom::Multiply => AtomView::Multiply,
            Atom::Divide => AtomView::Divide,
            Atom::Power => AtomView::Power,
            Atom::If => AtomView::If,
            Atom::Else => AtomView::Else,
            Atom::ElseIf => AtomView::ElseIf,
            Atom::Equal => AtomView::Equal,
            Atom::NotEqual => AtomView::NotEqual,
            Atom::Not => AtomView::Not,
            Atom::GreaterThan => AtomView::GreaterThan,
            Atom::LessThan => AtomView::LessThan,
            Atom::Assign => AtomView::Assign,
            Atom::Block => AtomView::Block,
            Atom::Nothing => AtomView::Nothing,
            Atom::End => AtomView::End,
        }
    }
}

impl View for AST {
    type V = AstView;

    open spec fn view(&self) -> AstView
        decreases self,
    {
        match self {
            AST::Node(n) => AstView::Node {
                head: n.head@,
                tail: Seq::new(
                    n.tail@.len(),
                    |i: int|
                        if 0 <= i < n.tail@.len() {
                            n.tail@[i]@
                        } else {
                            AstView::Atom(AtomView::Nothing)
                        },
                ),
            },
            AST::Atom(a) => AstView::Atom(a@),
        }
    }
}

impl View for Node {
    type V = AstView;

    open spec fn view(&self) -> AstView {
        AstView::Node { head: self.head@, tail: trees(self.tail@) }
    }
}

/// The views of a sequence of trees.
pub open spec fn trees(s: Seq<AST>) -> Seq<AstView> {
    Seq::new(s.len(), |i: int| s[i]@)
}

impl AST {
    /// The node with `head` above the trees of `tail`.
    pub fn node(head: Atom, tail: Vec<AST>) -> (r: AST)
        ensures
            r@ == (AstView::Node { head: head@, tail: trees(tail@) }),
    {
        let r = AST::Node(Node { head, tail });
        assert(r@->Node_tail =~= trees(tail@));
        r
    }
}

/// Whether an atom can be a leaf: a name, a text, a number, a truth value or
/// nothing.
pub open spec fn is_leaf(a: AtomView) -> bool {
    a is Symbol || a is String || a is Float || a is True || a is False || a is Nothing
}

/// Whether an atom is an operation of two operands: arithmetic, a comparison or
/// an assignment.
pub open spec fn is_binary(a: AtomView) -> bool {
    a is Plus || a is Minus || a is Multiply || a is Divide || a is Power || a is Equal
        || a is NotEqual || a is GreaterThan || a is LessThan || a is Assign
}

/// Whether a tree has the shape that the grammar gives: every leaf is a literal,
/// a name or nothing; an operation of two operands has two, a conditional has a
/// condition and two branches, a block has any number of expressions, and the
/// negation, whose head is the name `-`, has one operand.
pub open spec fn well_formed(tree: AstView) -> bool
    decreases tree,
{
    match tree {
        AstView::Atom(a) => is_leaf(a),
        AstView::Node { head, tail } => {
            &&& forall|i: int| 0 <= i < tail.len() ==> well_formed(#[trigger] tail[i])
            &&& if is_binary(head) {
                tail.len() == 2
            } else if head is If || head is ElseIf {
                tail.len() == 3
            } else if head is Block {
                true
            } else {
                head == AtomView::Symbol("-"@) && tail.len() == 1
            }
        },
    }
}

} // verus!
