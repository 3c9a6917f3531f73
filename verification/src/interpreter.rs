//! The evaluator: walks a syntax tree and computes its value in a scope.
//!
//! Numbers are IEEE 754 doubles, held by their bits. The library does no
//! floating-point arithmetic itself: the caller hands the evaluator the function
//! that reads a literal and the function that computes an operation.

use vstd::prelude::*;
use crate::atom::{trees, AstView, Atom, AtomView, AST};
use crate::enviroment::Enviroment;
use crate::lexer::{is_f64, is_float_literal};
use crate::object::{bits_gt, float_gt, Object, ObjectView};

verus! {

/// Why an expression has no value.
#[derive(Debug, Clone, Copy, PartialEq)]
pub enum EvalError {
    /// A variable that no scope binds.
    UnboundSymbol,
    /// An operand of an arithmetic operation or of a comparison that is no number.
    NotNumeric,
    /// A condition that is no truth value.
    NotBoolean,
    /// A block without an expression.
    EmptyBlock,
    /// An assignment to something other than a variable.
    InvalidTarget,
    /// A node whose head the evaluator has no rule for.
    UnknownOperation,
    /// A leaf that the evaluator has no rule for.
    UnknownAtom,
    /// A node with fewer operands than its operation takes.
    MissingOperand,
    /// A number whose text is no literal.
    InvalidLiteral,
}

/// The arithmetic operations on two numbers.
#[derive(Debug, Clone, Copy, PartialEq)]
pub enum MathOp {
    /// `a + b`
    Plus,
    /// `a - b`
    Minus,
    /// `a * b`
    Multiply,
    /// `a / b`
    Divide,
    /// `a` to the power of `b`
    Power,
}

/// What evaluating gives: a value or the failure, and the variables afterwards.
pub ghost struct Evaluated {
    pub value: Result<ObjectView, EvalError>,
    pub env: Map<Seq<char>, ObjectView>,
}

/// A failure that leaves the variables as they are.
pub open spec fn stopped(e: EvalError, env: Map<Seq<char>, ObjectView>) -> Evaluated {
    Evaluated { value: Err(e), env }
}

/// The arithmetic operation `head` on the numbers `x` and `y`, computed by
/// `calc`: the sum, the difference, the quotient and the product are those of
/// `x` and `y` in this order, the power is `y` to the power of `x`.
pub open spec fn math_spec(
    head: AtomView,
    x: ObjectView,
    y: ObjectView,
    calc: spec_fn(MathOp, u64, u64) -> u64,
) -> Result<ObjectView, EvalError> {
    match (x, y) {
        (ObjectView::Float(a), ObjectView::Float(b)) => match head {
            AtomView::Plus => Ok(ObjectView::Float(calc(MathOp::Plus, a, b))),
            AtomView::Minus => Ok(ObjectView::Float(calc(MathOp::Minus, a, b))),
            AtomView::Divide => Ok(ObjectView::Float(calc(MathOp::Divide, a, b))),
            AtomView::Multiply => Ok(ObjectView::Float(calc(MathOp::Multiply, a, b))),
            AtomView::Power => Ok(ObjectView::Float(calc(MathOp::Power, b, a))),
            _ => Err(EvalError::UnknownOperation),
        },
        _ => Err(EvalError::NotNumeric),
    }
}

/// Whether the number `a` is greater than the number `b`.
pub open spec fn gt_spec(a: ObjectView, b: ObjectView) -> Result<ObjectView, EvalError> {
    match (a, b) {
        (ObjectView::Float(x), ObjectView::Float(y)) => Ok(ObjectView::Bool(float_gt(x, y))),
        _ => Err(EvalError::NotNumeric),
    }
}

/// The value of a leaf: a number is read from its literal, a variable is looked
/// up, a truth value and nothing stand for themselves.
pub open spec fn atom_value(
    atom: AtomView,
    env: Map<Seq<char>, ObjectView>,
    lit: spec_fn(Seq<char>) -> u64,
) -> Result<ObjectView, EvalError> {
    match atom {
        AtomView::Float(text) => if is_float_literal(text) {
            Ok(ObjectView::Float(lit(text)))
        } else {
            Err(EvalError::InvalidLiteral)
        },
        AtomView::Symbol(key) => if env.contains_key(key) {
            Ok(env[key])
        } else {
            Err(EvalError::UnboundSymbol)
        },
        AtomView::False => Ok(ObjectView::Bool(false)),
        AtomView::True => Ok(ObjectView::Bool(true)),
        AtomView::Nothing => Ok(ObjectView::Nothing),
        _ => Err(EvalError::UnknownAtom),
    }
}

/// The value of a tree among the variables `env`, and the variables afterwards.
///
/// `lit` gives the number that a literal stands for, `calc` the result of an
/// arithmetic operation. Operands are evaluated in the order in which they are
/// named below, each among the variables that the one before left; the first
/// failure ends the evaluation and leaves the variables as they are then.
///
/// - An arithmetic node evaluates both operands and combines the second with
///   the first (see [`math_spec`]).
/// - An assignment evaluates its second operand and binds the variable that is
///   its first operand to the value; its own value is the variable's name.
/// - A comparison evaluates both operands and tells whether the first is
///   greater.
/// - A block evaluates its expressions in order; its value is that of the last.
/// - A conditional evaluates its first operand, and then its second if that
///   was true and its third if that was false; the other branch is not evaluated.
pub open spec fn eval_spec(
    tree: AstView,
    env: Map<Seq<char>, ObjectView>,
    lit: spec_fn(Seq<char>) -> u64,
    calc: spec_fn(MathOp, u64, u64) -> u64,
) -> Evaluated
    decreases tree, 0int,
{
    match tree {
        AstView::Atom(atom) => Evaluated { value: atom_value(atom, env, lit), env },
        AstView::Node { head, tail } => match head {
            AtomView::Plus
            | AtomView::Minus
            | AtomView::Divide
            | AtomView::Multiply
            | AtomView::Power => {
                let right = operand(tail, 0, env, lit, calc);
                match right.value {
                    Ok(y) => {
                        let left = operand(tail, 1, right.env, lit, calc);
                        match left.value {
                            Ok(x) => Evaluated { value: math_spec(head, x, y, calc), env: left.env },
                            Err(_) => left,
                        }
                    },
                    Err(_) => right,
                }
            },
            AtomView::Assign => {
                if tail.len() == 0 {
                    stopped(EvalError::MissingOperand, env)
                } else {
                    let value = operand(tail, 1, env, lit, calc);
                    match value.value {
                        Ok(v) => match tail[0] {
                            AstView::Atom(AtomView::Symbol(key)) => Evaluated {
                                value: Ok(ObjectView::Symbol(key)),
                                env: value.env.insert(key, v),
                            },
                            _ => stopped(EvalError::InvalidTarget, value.env),
                        },
                        Err(_) => value,
                    }
                }
            },
            AtomView::GreaterThan => {
                let first = operand(tail, 0, env, lit, calc);
                match first.value {
                    Ok(a) => {
                        let second = operand(tail, 1, first.env, lit, calc);
                        match second.value {
                            Ok(b) => Evaluated { value: gt_spec(a, b), env: second.env },
                            Err(_) => second,
                        }
                    },
                    Err(_) => first,
                }
            },
            AtomView::Block => block_from(tail, 0, env, lit, calc),
            AtomView::If | AtomView::ElseIf => {
                let condition = operand(tail, 0, env, lit, calc);
                match condition.value {
                    Ok(ObjectView::Bool(true)) => operand(tail, 1, condition.env, lit, calc),
                    Ok(ObjectView::Bool(false)) => operand(tail, 2, condition.env, lit, calc),
                    Ok(_) => stopped(EvalError::NotBoolean, condition.env),
                    Err(_) => condition,
                }
            },
            _ => stopped(EvalError::UnknownOperation, env),
        },
    }
}

/// The value of the operand at index `at`; a failure where the node has none there.
pub open spec fn operand(
    tail: Seq<AstView>,
    at: int,
    env: Map<Seq<char>, ObjectView>,
    lit: spec_fn(Seq<char>) -> u64,
    calc: spec_fn(MathOp, u64, u64) -> u64,
) -> Evaluated
    decreases tail, 0int,
{
    if 0 <= at < tail.len() {
        eval_spec(tail[at], env, lit, calc)
    } else {
        stopped(EvalError::MissingOperand, env)
    }
}

/// The value of the expressions of a block from index `from` on: each is
/// evaluated among the variables that the one before left, and the value of the
/// last is the value of all. A block without expressions has no value.
pub open spec fn block_from(
    tail: Seq<AstView>,
    from: int,
    env: Map<Seq<char>, ObjectView>,
    lit: spec_fn(Seq<char>) -> u64,
    calc: spec_fn(MathOp, u64, u64) -> u64,
) -> Evaluated
    decreases tail, tail.len() - from,
{
    if 0 <= from < tail.len() {
        let first = eval_spec(tail[from], env, lit, calc);
        if from + 1 == tail.len() || first.value is Err {
            first
        } else {
            block_from(tail, from + 1, first.env, lit, calc)
        }
    } else {
        stopped(EvalError::EmptyBlock, env)
    }
}

/// Whether `literal` accepts every literal of a number.
pub open spec fn reads_literals<L: Fn(String) -> u64>(literal: L) -> bool {
    forall|text: String| is_float_literal(text@) ==> call_requires(literal, (text,))
}

/// Whether `math` accepts every operation on every two numbers.
pub open spec fn does_math<M: Fn(MathOp, u64, u64) -> u64>(math: M) -> bool {
    forall|op: MathOp, a: u64, b: u64| call_requires(math, (op, a, b))
}

/// Whether what `literal` returns is the function `lit` of the text.
pub open spec fn reads_as<L: Fn(String) -> u64>(literal: L, lit: spec_fn(Seq<char>) -> u64) -> bool {
    forall|text: String, r: u64| call_ensures(literal, (text,), r) ==> r == lit(text@)
}

/// Whether what `math` returns is the function `calc` of the operation and the
/// two numbers.
pub open spec fn computes<M: Fn(MathOp, u64, u64) -> u64>(
    math: M,
    calc: spec_fn(MathOp, u64, u64) -> u64,
) -> bool {
    forall|op: MathOp, a: u64, b: u64, r: u64|
        call_ensures(math, (op, a, b), r) ==> r == calc(op, a, b)
}

/// The outcome of evaluating, with the value taken by its view.
pub open spec fn value_view(r: Result<Object, EvalError>) -> Result<ObjectView, EvalError> {
    match r {
        Ok(value) => Ok(value@),
        Err(e) => Err(e),
    }
}

/// Whether `r` and the variables `env` are the outcome `e`.
pub open spec fn is_outcome(
    r: Result<Object, EvalError>,
    env: Map<Seq<char>, ObjectView>,
    e: Evaluated,
) -> bool {
    value_view(r) == e.value && env == e.env
}

/// Applies the arithmetic operation `atom` to the numbers `x` and `y`.
///
/// Fails with `NotNumeric` where `x` or `y` is no number, and with
/// `UnknownOperation` where both are and `atom` is no arithmetic operation.
pub fn eval_math<M: Fn(MathOp, u64, u64) -> u64>(
    atom: &Atom,
    x: &Object,
    y: &Object,
    math: &M,
) -> (r: Result<Object, EvalError>)
    requires
        does_math(*math),
    ensures
        forall|calc: spec_fn(MathOp, u64, u64) -> u64|
            computes(*math, calc) ==> value_view(r) == #[trigger] math_spec(atom@, x@, y@, calc),
{
    let (a, b) = match (x, y) {
        (Object::Float(a), Object::Float(b)) => (*a, *b),
        _ => {
            return Err(EvalError::NotNumeric);
        },
    };
    match atom {
        Atom::Plus => Ok(Object::Float(math(MathOp::Plus, a, b))),
        Atom::Minus => Ok(Object::Float(math(MathOp::Minus, a, b))),
        Atom::Divide => Ok(Object::Float(math(MathOp::Divide, a, b))),
        Atom::Multiply => Ok(Object::Float(math(MathOp::Multiply, a, b))),
        Atom::Power => Ok(Object::Float(math(MathOp::Power, b, a))),
        _ => Err(EvalError::UnknownOperation),
    }
}

/// Tells whether the number `a` is greater than the number `b`. Fails with
/// `NotNumeric` where one of them is no number.
pub fn eval_gt(a: &Object, b: &Object) -> (r: Result<Object, EvalError>)
    ensures
        value_view(r) == gt_spec(a@, b@),
{
    match (a, b) {
        (Object::Float(x), Object::Float(y)) => Ok(Object::Bool(bits_gt(*x, *y))),
        _ => Err(EvalError::NotNumeric),
    }
}

/// An evaluator with the scope that it evaluates in.
pub struct Interpreter {
    pub env: Enviroment,
}

impl Interpreter {
    /// An evaluator that reads and binds the variables of `env`.
    pub fn new(env: Enviroment) -> (r: Self)
        ensures
            r.env == env,
    {
        Interpreter { env }
    }

    /// Evaluates the operand at index `at` of a node with the operands `tail`.
    fn eval_operand<L: Fn(String) -> u64, M: Fn(MathOp, u64, u64) -> u64>(
        &mut self,
        tail: &Vec<AST>,
        at: usize,
        literal: &L,
        math: &M,
    ) -> (r: Result<Object, EvalError>)
        requires
            reads_literals(*literal),
            does_math(*math),
        ensures
            final(self).env.outer() == old(self).env.outer(),
            forall|lit: spec_fn(Seq<char>) -> u64, calc: spec_fn(MathOp, u64, u64) -> u64|
                reads_as(*literal, lit) && computes(*math, calc) ==> is_outcome(
                    r,
                    final(self).env@,
                    #[trigger] operand(trees(tail@), at as int, old(self).env@, lit, calc),
                ),
        decreases tail, 0int,
    {
        if at < tail.len() {
            let r = self.eval(&tail[at], literal, math);
            assert forall|lit: spec_fn(Seq<char>) -> u64, calc: spec_fn(MathOp, u64, u64) -> u64|
                reads_as(*literal, lit) && computes(*math, calc) implies is_outcome(
                r,
                self.env@,
                #[trigger] operand(trees(tail@), at as int, old(self).env@, lit, calc),
            ) by {
                assert(trees(tail@)[at as int] == tail@[at as int]@);
                assert(is_outcome(
                    r,
                    self.env@,
                    eval_spec(tail@[at as int]@, old(self).env@, lit, calc),
                ));
            }
            r
        } else {
            Err(EvalError::MissingOperand)
        }
    }

    /// Evaluates `node` among the variables of the scope, and binds there what
    /// `node` assigns.
    ///
    /// `literal` reads the number of a literal, and `math` computes an arithmetic
    /// operation on two numbers; whatever functions they are, the value and the
    /// variables afterwards are those of [`eval_spec`] with these functions. The
    /// scopes around this one stay as they are.
    pub fn eval<L: Fn(String) -> u64, M: Fn(MathOp, u64, u64) -> u64>(
        &mut self,
        node: &AST,
        literal: &L,
        math: &M,
    ) -> (r: Result<Object, EvalError>)
        requires
            reads_literals(*literal),
            does_math(*math),
        ensures
            final(self).env.outer() == old(self).env.outer(),
            forall|lit: spec_fn(Seq<char>) -> u64, calc: spec_fn(MathOp, u64, u64) -> u64|
                reads_as(*literal, lit) && computes(*math, calc) ==> is_outcome(
                    r,
                    final(self).env@,
                    #[trigger] eval_spec(node@, old(self).env@, lit, calc),
                ),
        decreases node, 0int,
    {
        let inner = match node {
            AST::Atom(atom) => {
                return self.eval_atom(atom, literal);
            },
            AST::Node(inner) => inner,
        };
        let tail = &inner.tail;
        let ghost env0 = self.env@;
        let ghost env1 = env0;
        let ghost items = trees(tail@);
        assert(node@->Node_tail =~= items);
        let r = match &inner.head {
            Atom::Plus | Atom::Minus | Atom::Divide | Atom::Multiply | Atom::Power => {
                match self.eval_operand(tail, 0, literal, math) {
                    Ok(right) => {
                        proof {
                            env1 = self.env@;
                        }
                        match self.eval_operand(tail, 1, literal, math) {
                            Ok(left) => eval_math(&inner.head, &left, &right, math),
                            Err(e) => Err(e),
                        }
                    },
                    Err(e) => Err(e),
                }
            },
            Atom::Assign => {
                if tail.len() == 0 {
                    Err(EvalError::MissingOperand)
                } else {
                    assert(items[0] == tail@[0]@);
                    match self.eval_operand(tail, 1, literal, math) {
                        Ok(value) => match &tail[0] {
                            AST::Atom(Atom::Symbol(key)) => {
                                self.env.insert(key.as_str(), value);
                                Ok(Object::Symbol(key.clone()))
                            },
                            _ => Err(EvalError::InvalidTarget),
                        },
                        Err(e) => Err(e),
                    }
                }
            },
            Atom::GreaterThan => {
                match self.eval_operand(tail, 0, literal, math) {
                    Ok(a) => {
                        proof {
                            env1 = self.env@;
                        }
                        match self.eval_operand(tail, 1, literal, math) {
                            Ok(b) => eval_gt(&a, &b),
                            Err(e) => Err(e),
                        }
                    },
                    Err(e) => Err(e),
                }
            },
            Atom::Block => self.eval_block(tail, literal, math),
            Atom::If | Atom::ElseIf => {
                match self.eval_operand(tail, 0, literal, math) {
                    Ok(Object::Bool(true)) => {
                        proof {
                            env1 = self.env@;
                        }
                        self.eval_operand(tail, 1, literal, math)
                    },
                    Ok(Object::Bool(false)) => {
                        proof {
                            env1 = self.env@;
                        }
                        self.eval_operand(tail, 2, literal, math)
                    },
                    Ok(_) => Err(EvalError::NotBoolean),
                    Err(e) => Err(e),
                }
            },
            _ => Err(EvalError::UnknownOperation),
        };
        assert forall|lit: spec_fn(Seq<char>) -> u64, calc: spec_fn(MathOp, u64, u64) -> u64|
            reads_as(*literal, lit) && computes(*math, calc) implies is_outcome(
            r,
            self.env@,
            #[trigger] eval_spec(node@, env0, lit, calc),
        ) by {
            // The outcomes of the parts, which the calls above have established.
            let first = operand(items, 0, env0, lit, calc);
            let second = operand(items, 1, env0, lit, calc);
            let then_first = operand(items, 1, env1, lit, calc);
            let then_second = operand(items, 2, env1, lit, calc);
            let block = block_from(items, 0, env0, lit, calc);
        }
        r
    }

    /// Evaluates a leaf.
    fn eval_atom<L: Fn(String) -> u64>(&self, atom: &Atom, literal: &L) -> (r: Result<
        Object,
        EvalError,
    >)
        requires
            reads_literals(*literal),
        ensures
            forall|lit: spec_fn(Seq<char>) -> u64|
                reads_as(*literal, lit) ==> value_view(r) == #[trigger] atom_value(
                    atom@,
                    self.env@,
                    lit,
                ),
    {
        match atom {
            Atom::Float(text) => {
                if is_f64(text.as_str()) {
                    Ok(Object::Float(literal(text.clone())))
                } else {
                    Err(EvalError::InvalidLiteral)
                }
            },
            Atom::Symbol(key) => {
                match self.env.get(key.as_str()) {
                    Some(object) => Ok(object.clone()),
                    None => Err(EvalError::UnboundSymbol),
                }
            },
            Atom::False => Ok(Object::Bool(false)),
            Atom::True => Ok(Object::Bool(true)),
            Atom::Nothing => Ok(Object::Nothing),
            _ => Err(EvalError::UnknownAtom),
        }
    }

    /// Evaluates the expressions of a block in order.
    fn eval_block<L: Fn(String) -> u64, M: Fn(MathOp, u64, u64) -> u64>(
        &mut self,
        tail: &Vec<AST>,
        literal: &L,
        math: &M,
    ) -> (r: Result<Object, EvalError>)
        requires
            reads_literals(*literal),
            does_math(*math),
        ensures
            final(self).env.outer() == old(self).env.outer(),
            forall|lit: spec_fn(Seq<char>) -> u64, calc: spec_fn(MathOp, u64, u64) -> u64|
                reads_as(*literal, lit) && computes(*math, calc) ==> is_outcome(
                    r,
                    final(self).env@,
                    #[trigger] block_from(trees(tail@), 0, old(self).env@, lit, calc),
                ),
        decreases tail, 1int,
    {
        if tail.len() == 0 {
            return Err(EvalError::EmptyBlock);
        }
        let ghost env0 = self.env@;
        let ghost items = trees(tail@);
        let mut i: usize = 0;
        loop
            invariant
                reads_literals(*literal),
                does_math(*math),
                i < tail@.len(),
                items == trees(tail@),
                env0 == old(self).env@,
                self.env.outer() == old(self).env.outer(),
                forall|lit: spec_fn(Seq<char>) -> u64, calc: spec_fn(MathOp, u64, u64) -> u64|
                    reads_as(*literal, lit) && computes(*math, calc) ==> #[trigger] block_from(
                        items,
                        0,
                        env0,
                        lit,
                        calc,
                    ) == block_from(items, i as int, self.env@, lit, calc),
            decreases tail@.len() - i,
        {
            let ghost env1 = self.env@;
            let r = self.eval(&tail[i], literal, math);
            assert(items[i as int] == tail@[i as int]@);
            let last = i == tail.len() - 1;
            assert forall|lit: spec_fn(Seq<char>) -> u64, calc: spec_fn(MathOp, u64, u64) -> u64|
                reads_as(*literal, lit) && computes(*math, calc) implies {
                let whole = #[trigger] block_from(items, 0, env0, lit, calc);
                if last || r is Err {
                    is_outcome(r, self.env@, whole)
                } else {
                    whole == block_from(items, i + 1, self.env@, lit, calc)
                }
            } by {
                let here = eval_spec(tail@[i as int]@, env1, lit, calc);
                let rest = block_from(items, i as int, env1, lit, calc);
            }
            if last || r.is_err() {
                return r;
            }
            i += 1;
        }
    }
}

/// Whether `head` is one of the five arithmetic operations.
pub open spec fn is_math(head: AtomView) -> bool {
    head is Plus || head is Minus || head is Divide || head is Multiply || head is Power
}

/// A variable that is not bound has no value: the evaluation fails and the
/// variables stay as they are.
pub proof fn lemma_unbound_symbol_fails(
    key: Seq<char>,
    env: Map<Seq<char>, ObjectView>,
    lit: spec_fn(Seq<char>) -> u64,
    calc: spec_fn(MathOp, u64, u64) -> u64,
)
    requires
        !env.contains_key(key),
    ensures
        eval_spec(AstView::Atom(AtomView::Symbol(key)), env, lit, calc) == stopped(
            EvalError::UnboundSymbol,
            env,
        ),
{
}

/// Arithmetic on something that is no number fails: where both operands of an
/// arithmetic node have a value and one of the values is no number, the node has
/// no value.
pub proof fn lemma_math_on_other_values_fails(
    head: AtomView,
    tail: Seq<AstView>,
    env: Map<Seq<char>, ObjectView>,
    lit: spec_fn(Seq<char>) -> u64,
    calc: spec_fn(MathOp, u64, u64) -> u64,
)
    requires
        is_math(head),
        tail.len() >= 2,
        eval_spec(tail[0], env, lit, calc).value is Ok,
        eval_spec(tail[1], eval_spec(tail[0], env, lit, calc).env, lit, calc).value is Ok,
        !(eval_spec(tail[0], env, lit, calc).value->Ok_0 is Float) || !(eval_spec(
            tail[1],
            eval_spec(tail[0], env, lit, calc).env,
            lit,
            calc,
        ).value->Ok_0 is Float),
    ensures
        eval_spec(AstView::Node { head, tail }, env, lit, calc).value == Err::<
            ObjectView,
            EvalError,
        >(EvalError::NotNumeric),
{
    let right = operand(tail, 0, env, lit, calc);
    let left = operand(tail, 1, right.env, lit, calc);
}

/// A comparison of something that is no number fails in the same way.
pub proof fn lemma_comparing_other_values_fails(
    tail: Seq<AstView>,
    env: Map<Seq<char>, ObjectView>,
    lit: spec_fn(Seq<char>) -> u64,
    calc: spec_fn(MathOp, u64, u64) -> u64,
)
    requires
        tail.len() >= 2,
        eval_spec(tail[0], env, lit, calc).value is Ok,
        eval_spec(tail[1], eval_spec(tail[0], env, lit, calc).env, lit, calc).value is Ok,
        !(eval_spec(tail[0], env, lit, calc).value->Ok_0 is Float) || !(eval_spec(
            tail[1],
            eval_spec(tail[0], env, lit, calc).env,
            lit,
            calc,
        ).value->Ok_0 is Float),
    ensures
        eval_spec(AstView::Node { head: AtomView::GreaterThan, tail }, env, lit, calc).value
            == Err::<ObjectView, EvalError>(EvalError::NotNumeric),
{
    let first = operand(tail, 0, env, lit, calc);
    let second = operand(tail, 1, first.env, lit, calc);
}

/// A condition that is no truth value fails: where the first operand of a
/// conditional has a value that is neither true nor false, the conditional has
/// no value, and neither branch is evaluated.
pub proof fn lemma_other_condition_fails(
    head: AtomView,
    tail: Seq<AstView>,
    env: Map<Seq<char>, ObjectView>,
    lit: spec_fn(Seq<char>) -> u64,
    calc: spec_fn(MathOp, u64, u64) -> u64,
)
    requires
        head is If || head is ElseIf,
        tail.len() >= 1,
        eval_spec(tail[0], env, lit, calc).value is Ok,
        !(eval_spec(tail[0], env, lit, calc).value->Ok_0 is Bool),
    ensures
        eval_spec(AstView::Node { head, tail }, env, lit, calc) == stopped(
            EvalError::NotBoolean,
            eval_spec(tail[0], env, lit, calc).env,
        ),
{
    let condition = operand(tail, 0, env, lit, calc);
}

} // verus!
