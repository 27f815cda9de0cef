//! The errors that running a program can end in.
use vstd::prelude::*;
use crate::text::SmartString;

verus! {

/// An error met while running a program.
#[derive(Debug)]
pub enum RuntimeError {
    /// An operator met an operand of a kind it does not take.
    InvalidOperand,
    /// A variable was read or assigned that is not defined.
    Undefined(SmartString),
    /// A value that is not a function was called.
    NotCallable,
    /// A function was called with another number of arguments than it takes.
    Arity { expected: usize, got: usize },
    /// The program ran past the step budget it was given.
    OutOfFuel,
}

/// What a runtime error is.
pub enum ErrV {
    InvalidOperand,
    Undefined(Seq<char>),
    NotCallable,
    Arity(usize, usize),
    OutOfFuel,
}

impl View for RuntimeError {
    type V = ErrV;

    open spec fn view(&self) -> ErrV {
        match self {
            RuntimeError::InvalidOperand => ErrV::InvalidOperand,
            RuntimeError::Undefined(s) => ErrV::Undefined(s@),
            RuntimeError::NotCallable => ErrV::NotCallable,
            RuntimeError::Arity { expected, got } => ErrV::Arity(*expected, *got),
            RuntimeError::OutOfFuel => ErrV::OutOfFuel,
        }
    }
}

impl RuntimeError {
    /// A copy of the error.
    pub fn copy(&self) -> (r: RuntimeError)
        ensures
            r@ == self@,
    {
        match self {
            RuntimeError::InvalidOperand => RuntimeError::InvalidOperand,
            RuntimeError::Undefined(s) => RuntimeError::Undefined(s.copy()),
            RuntimeError::NotCallable => RuntimeError::NotCallable,
            RuntimeError::Arity { expected, got } => RuntimeError::Arity {
                expected: *expected,
                got: *got,
            },
            RuntimeError::OutOfFuel => RuntimeError::OutOfFuel,
        }
    }
}

} // verus!
