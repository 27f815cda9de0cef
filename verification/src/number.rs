//! Lox numbers.
//!
//! A Lox number is a double-precision float. The library holds one by its
//! IEEE-754 bits, a `u64`, and asks a caller-supplied function, the number
//! operations, for everything that needs floating point: reading a lexeme,
//! arithmetic, comparison and display. The interpreter's contracts are
//! stated over what that function answers.
use vstd::prelude::*;
use crate::text::SmartString;

verus! {

/// How two numbers compare, when they do.
#[derive(Clone, Copy, Debug, PartialEq, Eq, Structural)]
pub enum Cmp {
    Less,
    Equal,
    Greater,
}

/// A request to the number operations.
#[derive(Debug)]
pub enum NumOp {
    /// The number that a number lexeme denotes.
    Parse(SmartString),
    /// `-x`.
    Negate(u64),
    /// `x + y`.
    Add(u64, u64),
    /// `x - y`.
    Subtract(u64, u64),
    /// `x * y`.
    Multiply(u64, u64),
    /// `x / y`.
    Divide(u64, u64),
    /// How `x` compares with `y`; nothing when they are unordered.
    Compare(u64, u64),
    /// The text that `x` is displayed with.
    Show(u64),
}

/// An answer of the number operations.
#[derive(Debug)]
pub enum NumOut {
    Number(u64),
    Order(Option<Cmp>),
    Text(SmartString),
}

/// What a request is.
pub enum NumOpV {
    Parse(Seq<char>),
    Negate(u64),
    Add(u64, u64),
    Subtract(u64, u64),
    Multiply(u64, u64),
    Divide(u64, u64),
    Compare(u64, u64),
    Show(u64),
}

/// What an answer is.
pub enum NumOutV {
    Number(u64),
    Order(Option<Cmp>),
    Text(Seq<char>),
}

impl View for NumOp {
    type V = NumOpV;

    open spec fn view(&self) -> NumOpV {
        match self {
            NumOp::Parse(s) => NumOpV::Parse(s@),
            NumOp::Negate(x) => NumOpV::Negate(*x),
            NumOp::Add(x, y) => NumOpV::Add(*x, *y),
            NumOp::Subtract(x, y) => NumOpV::Subtract(*x, *y),
            NumOp::Multiply(x, y) => NumOpV::Multiply(*x, *y),
            NumOp::Divide(x, y) => NumOpV::Divide(*x, *y),
            NumOp::Compare(x, y) => NumOpV::Compare(*x, *y),
            NumOp::Show(x) => NumOpV::Show(*x),
        }
    }
}

impl View for NumOut {
    type V = NumOutV;

    open spec fn view(&self) -> NumOutV {
        match self {
            NumOut::Number(x) => NumOutV::Number(*x),
            NumOut::Order(o) => NumOutV::Order(*o),
            NumOut::Text(s) => NumOutV::Text(s@),
        }
    }
}

/// Number operations are deterministic when requests that are the same give
/// answers that are the same.
pub open spec fn deterministic<F: Fn(NumOp) -> NumOut>(num: F) -> bool {
    forall|a: NumOp, b: NumOp, x: NumOut, y: NumOut|
        #![trigger call_ensures(num, (a,), x), call_ensures(num, (b,), y)]
        a@ == b@ && call_ensures(num, (a,), x) && call_ensures(num, (b,), y) ==> x@ == y@
}

/// Whether `r` is an answer that the number operations can give to `o`.
pub open spec fn answers<F: Fn(NumOp) -> NumOut>(num: F, o: NumOpV, r: NumOutV) -> bool {
    exists|a: NumOp, x: NumOut| a@ == o && x@ == r && #[trigger] call_ensures(num, (a,), x)
}

/// The answer of the number operations to a request, as a function.
pub open spec fn num_fn<F: Fn(NumOp) -> NumOut>(num: F) -> spec_fn(NumOpV) -> NumOutV {
    |o: NumOpV| choose|r: NumOutV| answers(num, o, r)
}

/// Asks the number operations.
pub fn ask<F: Fn(NumOp) -> NumOut>(num: &F, op: NumOp) -> (r: NumOut)
    requires
        forall|a: NumOp| call_requires(*num, (a,)),
    ensures
        deterministic(*num) ==> r@ == num_fn(*num)(op@),
{
    let ghost o = op@;
    let r = num(op);
    proof {
        if deterministic(*num) {
            assert(answers(*num, o, r@));
            let q = choose|q: NumOutV| answers(*num, o, q);
            assert(answers(*num, o, q));
            let (a, x) = choose|a: NumOp, x: NumOut| a@ == o && x@ == q && #[trigger] call_ensures(*num, (a,), x);
            assert(call_ensures(*num, (a,), x));
        }
    }
    r
}

} // verus!
