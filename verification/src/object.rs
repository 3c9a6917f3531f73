//! Runtime values.

use vstd::prelude::*;

verus! {

/// The value of an expression.
///
/// Two values are equal where they are of one kind and hold the same; two
/// numbers are equal as doubles, so that the two zeros are equal and a NaN
/// equals nothing.
#[derive(Debug)]
pub enum Object {
    String(String),
    /// The name of the variable that an assignment bound.
    Symbol(String),
    /// A number, by the bits of its IEEE 754 double.
    Float(u64),
    Bool(bool),
    Nothing,
}

/// What an [`Object`] stands for, with texts as sequences of characters.
pub ghost enum ObjectView {
    String(Seq<char>),
    Symbol(Seq<char>),
    Float(u64),
    Bool(bool),
    Nothing,
}

impl View for Object {
    type V = ObjectView;

    open spec fn view(&self) -> ObjectView {
        match self {
            Object::String(s) => ObjectView::String(s@),
            Object::Symbol(s) => ObjectView::Symbol(s@),
            Object::Float(bits) => ObjectView::Float(*bits),
            Object::Bool(b) => ObjectView::Bool(*b),
            Object::Nothing => ObjectView::Nothing,
        }
    }
}

impl Clone for Object {
    fn clone(&self) -> (r: Self)
        ensures
            r@ == self@,
    {
        match self {
            Object::String(s) => Object::String(s.clone()),
            Object::Symbol(s) => Object::Symbol(s.clone()),
            Object::Float(bits) => Object::Float(*bits),
            Object::Bool(b) => Object::Bool(*b),
            Object::Nothing => Object::Nothing,
        }
    }
}

/// Whether the bits are those of a NaN: all exponent bits set and a fraction
/// that is not zero.
pub open spec fn is_nan(bits: u64) -> bool {
    magnitude(bits) > 0x7FF0_0000_0000_0000
}

/// The bits without the sign bit.
pub open spec fn magnitude(bits: u64) -> int {
    if bits >= 0x8000_0000_0000_0000 {
        bits - 0x8000_0000_0000_0000
    } else {
        bits as int
    }
}

/// An integer that orders the doubles that are no NaN as their values do: the
/// magnitude, negated where the sign bit is set. Both zeros have rank 0.
pub open spec fn rank(bits: u64) -> int {
    if bits >= 0x8000_0000_0000_0000 {
        -magnitude(bits)
    } else {
        magnitude(bits)
    }
}

/// Whether the double with the bits `a` is greater than the one with the bits
/// `b`. A NaN is neither greater nor less than anything.
pub open spec fn float_gt(a: u64, b: u64) -> bool {
    !is_nan(a) && !is_nan(b) && rank(a) > rank(b)
}

/// Whether the double with the bits `a` is greater than the one with the bits `b`.
pub fn bits_gt(a: u64, b: u64) -> (r: bool)
    ensures
        r == float_gt(a, b),
{
    let sign: u64 = 0x8000_0000_0000_0000;
    let infinity: u64 = 0x7FF0_0000_0000_0000;
    let a_negative = a >= sign;
    let b_negative = b >= sign;
    let a_magnitude = if a_negative {
        a - sign
    } else {
        a
    };
    let b_magnitude = if b_negative {
        b - sign
    } else {
        b
    };
    if a_magnitude > infinity || b_magnitude > infinity {
        false
    } else if a_negative && b_negative {
        a_magnitude < b_magnitude
    } else if a_negative {
        false
    } else if b_negative {
        a_magnitude > 0 || b_magnitude > 0
    } else {
        a_magnitude > b_magnitude
    }
}

/// Whether the doubles with the bits `a` and `b` are equal. The two zeros are; a
/// NaN equals nothing, not even itself.
pub open spec fn float_eq(a: u64, b: u64) -> bool {
    !is_nan(a) && !is_nan(b) && rank(a) == rank(b)
}

/// Whether the doubles with the bits `a` and `b` are equal.
pub fn bits_eq(a: u64, b: u64) -> (r: bool)
    ensures
        r == float_eq(a, b),
{
    let sign: u64 = 0x8000_0000_0000_0000;
    let infinity: u64 = 0x7FF0_0000_0000_0000;
    let a_magnitude = if a >= sign {
        a - sign
    } else {
        a
    };
    let b_magnitude = if b >= sign {
        b - sign
    } else {
        b
    };
    if a_magnitude > infinity || b_magnitude > infinity {
        false
    } else {
        a == b || (a_magnitude == 0 && b_magnitude == 0)
    }
}

impl PartialEq for Object {
    fn eq(&self, other: &Self) -> (r: bool) {
        match (self, other) {
            (Object::String(a), Object::String(b)) => *a == *b,
            (Object::Symbol(a), Object::Symbol(b)) => *a == *b,
            (Object::Float(a), Object::Float(b)) => bits_eq(*a, *b),
            (Object::Bool(a), Object::Bool(b)) => *a == *b,
            (Object::Nothing, Object::Nothing) => true,
            _ => false,
        }
    }
}

impl vstd::std_specs::cmp::PartialEqSpecImpl for Object {
    open spec fn obeys_eq_spec() -> bool {
        true
    }

    open spec fn eq_spec(&self, other: &Self) -> bool {
        match (self, other) {
            (Object::String(a), Object::String(b)) => a@ == b@,
            (Object::Symbol(a), Object::Symbol(b)) => a@ == b@,
            (Object::Float(a), Object::Float(b)) => float_eq(*a, *b),
            (Object::Bool(a), Object::Bool(b)) => a == b,
            (Object::Nothing, Object::Nothing) => true,
            _ => false,
        }
    }
}

} // verus!
