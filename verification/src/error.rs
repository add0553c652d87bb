//! The error taxonomy of the evaluator, and the out-of-band signals that end
//! an evaluation without being recoverable errors.

use vstd::prelude::*;

verus! {

/// A recoverable evaluation failure. The first failure met while reducing an
/// expression aborts that expression's evaluation and propagates unchanged.
#[derive(Debug, Clone, PartialEq)]
pub enum Error {
    /// A division or remainder met a zero operand.
    DivideByZero,
    /// `head`, `tail` or `init` was applied to an empty list.
    EmptyList,
    /// A child operation was applied to a value that has no children.
    NoChildren,
    /// An arithmetic operand was not a number.
    NotANumber,
    /// Arity mismatch: expected so many arguments, got so many.
    NumArguments(usize, usize),
    /// Surfaced from an external parser, never generated by the evaluator.
    Parse(String),
    /// Type mismatch: expected such a kind, got a value rendered so.
    WrongType(String, String),
    /// A symbol could not be resolved in any enclosing scope.
    UnknownFunction(String),
}

/// The mathematical model of an [`Error`]: strings become character
/// sequences, counts become unbounded integers.
pub enum ErrV {
    DivideByZero,
    EmptyList,
    NoChildren,
    NotANumber,
    NumArguments(int, int),
    Parse(Seq<char>),
    WrongType(Seq<char>, Seq<char>),
    UnknownFunction(Seq<char>),
}

impl View for Error {
    type V = ErrV;

    open spec fn view(&self) -> ErrV {
        match self {
            Error::DivideByZero => ErrV::DivideByZero,
            Error::EmptyList => ErrV::EmptyList,
            Error::NoChildren => ErrV::NoChildren,
            Error::NotANumber => ErrV::NotANumber,
            Error::NumArguments(expected, got) => ErrV::NumArguments(
                *expected as int,
                *got as int,
            ),
            Error::Parse(msg) => ErrV::Parse(msg@),
            Error::WrongType(expected, got) => ErrV::WrongType(expected@, got@),
            Error::UnknownFunction(name) => ErrV::UnknownFunction(name@),
        }
    }
}

/// The result type of every fallible core operation.
pub type ReplispResult<T> = Result<T, Error>;

/// Why an evaluation stopped without a value. An [`Error`] propagates to the
/// top-level caller and is recoverable there; the other two are process-level
/// outcomes: `Exit` reports that the `exit` builtin ran, `StackExhausted`
/// reports that the evaluation depth budget ran out, the analogue of native
/// call-stack exhaustion, which no program can catch.
#[derive(Debug, Clone, PartialEq)]
pub enum Halt {
    Error(Error),
    Exit,
    StackExhausted,
}

} // verus!
