//! Numbers and the arithmetic that the interpreter is given.
//!
//! A number is an IEEE-754 binary64 value, held as its 64 bits. The
//! interpreter itself only moves numbers around, negates them and tests them
//! for zero, all of which are exact operations on the bits. Rounding
//! arithmetic and the reading of decimal literals are supplied by the caller
//! as two functions; every contract of the interpreter is stated relative to
//! what those functions compute.

use vstd::prelude::*;

verus! {

/// The sign bit of a binary64 value.
pub const SIGN_BIT: u64 = 0x8000_0000_0000_0000;

/// An IEEE-754 binary64 value, held as its bit pattern.
#[derive(Clone, Copy, Debug, PartialEq, Eq, Structural)]
pub struct Number {
    pub bits: u64,
}

impl Number {
    /// Positive zero.
    pub open spec fn zero_value() -> Number {
        Number { bits: 0 }
    }

    /// Whether this number is zero: positive zero or negative zero.
    pub open spec fn is_zero_value(self) -> bool {
        self.bits == 0 || self.bits == SIGN_BIT
    }

    /// This number with its sign reversed: the same bits but for the sign
    /// bit.
    pub open spec fn negated(self) -> Number {
        if self.bits >= SIGN_BIT {
            Number { bits: (self.bits - SIGN_BIT) as u64 }
        } else {
            Number { bits: (self.bits + SIGN_BIT) as u64 }
        }
    }

    /// The number with the given bit pattern.
    pub fn from_bits(bits: u64) -> (n: Number)
        ensures
            n.bits == bits,
    {
        Number { bits }
    }

    /// The bit pattern of this number.
    pub fn to_bits(&self) -> (bits: u64)
        ensures
            bits == self.bits,
    {
        self.bits
    }

    /// Positive zero.
    pub fn zero() -> (n: Number)
        ensures
            n == Number::zero_value(),
    {
        Number { bits: 0 }
    }

    /// Whether this number is zero of either sign.
    pub fn is_zero(&self) -> (r: bool)
        ensures
            r == self.is_zero_value(),
    {
        self.bits == 0 || self.bits == SIGN_BIT
    }

    /// This number with its sign reversed.
    pub fn negate(&self) -> (n: Number)
        ensures
            n == self.negated(),
    {
        if self.bits >= SIGN_BIT {
            Number { bits: self.bits - SIGN_BIT }
        } else {
            Number { bits: self.bits + SIGN_BIT }
        }
    }
}

/// Reversing the sign twice gives the number back, and keeps zero zero.
pub proof fn lemma_negated_twice(n: Number)
    ensures
        n.negated().negated() == n,
        n.negated().is_zero_value() == n.is_zero_value(),
{
}

/// The four rounding operations.
#[derive(Clone, Copy, Debug, PartialEq, Eq, Structural)]
pub enum ArithOp {
    Add,
    Sub,
    Mul,
    Div,
}

/// The arithmetic that an interpreter is given, as a mathematical function:
/// the operation, the left operand, the right operand, and the result.
pub type Arithmetic = spec_fn(ArithOp, Number, Number) -> Number;

/// The reading of literals that an interpreter is given, as a mathematical
/// function: the literal's text, and its value where it has one.
pub type Reading = spec_fn(Seq<char>) -> Option<Number>;

/// Whether `arith` can be called on all operands and its result is a function
/// of the operation and the operands.
pub open spec fn is_arithmetic<A: Fn(ArithOp, Number, Number) -> Number>(arith: A) -> bool {
    &&& forall|op: ArithOp, a: Number, b: Number| #[trigger] arith.requires((op, a, b))
    &&& forall|op: ArithOp, a: Number, b: Number, r1: Number, r2: Number|
        #[trigger] arith.ensures((op, a, b), r1) && #[trigger] arith.ensures((op, a, b), r2) ==> r1
            == r2
}

/// The function that `arith` computes.
pub open spec fn arithmetic_of<A: Fn(ArithOp, Number, Number) -> Number>(arith: A) -> Arithmetic {
    |op: ArithOp, a: Number, b: Number| choose|r: Number| arith.ensures((op, a, b), r)
}

/// Whether `to_number` may give `r` for a string that reads `text`.
pub open spec fn may_read<N: Fn(String) -> Option<Number>>(
    to_number: N,
    text: Seq<char>,
    r: Option<Number>,
) -> bool {
    exists|s: String| s@ == text && #[trigger] to_number.ensures((s,), r)
}

/// Whether `to_number` can be called on all strings and its result is a
/// function of the characters of the string.
pub open spec fn is_reading<N: Fn(String) -> Option<Number>>(to_number: N) -> bool {
    &&& forall|s: String| #[trigger] to_number.requires((s,))
    &&& forall|text: Seq<char>, r1: Option<Number>, r2: Option<Number>|
        #[trigger] may_read(to_number, text, r1) && #[trigger] may_read(to_number, text, r2) ==> r1
            == r2
}

/// The function that `to_number` computes.
pub open spec fn reading_of<N: Fn(String) -> Option<Number>>(to_number: N) -> Reading {
    |text: Seq<char>| choose|r: Option<Number>| may_read(to_number, text, r)
}

/// Calls `arith`.
pub fn apply<A: Fn(ArithOp, Number, Number) -> Number>(
    arith: &A,
    op: ArithOp,
    a: Number,
    b: Number,
) -> (r: Number)
    requires
        is_arithmetic(*arith),
    ensures
        r == arithmetic_of(*arith)(op, a, b),
{
    arith(op, a, b)
}

/// Calls `to_number` on a copy of `text`.
pub fn read<N: Fn(String) -> Option<Number>>(to_number: &N, text: &String) -> (r: Option<Number>)
    requires
        is_reading(*to_number),
    ensures
        r == reading_of(*to_number)(text@),
{
    let s = text.clone();
    let r = to_number(s);
    proof {
        assert(may_read(*to_number, text@, r));
    }
    r
}

} // verus!
