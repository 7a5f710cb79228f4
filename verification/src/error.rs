//! The errors that end the evaluation of a document.

use vstd::prelude::*;
use crate::assoc::Text;
use crate::dimension::{DimensionVector, Dims};

verus! {

/// The operation that found two dimension vectors incompatible.
#[derive(Clone, Copy, Debug, PartialEq, Eq, Structural)]
pub enum MismatchKind {
    Add,
    Subtract,
    Convert,
}

/// What the parser was looking for where it stopped.
#[derive(Clone, Copy, Debug, PartialEq, Eq, Structural)]
pub enum Expected {
    /// A number, a name, an opening parenthesis or a minus sign.
    Operand,
    /// The `)` that closes a group.
    ClosingParenthesis,
    /// An operator, or the end of the statement.
    EndOfStatement,
}

/// Why an evaluation stopped.
#[derive(Debug)]
pub enum EngineError {
    /// Malformed syntax: the offset of the offending character in the
    /// document, what was expected there, and the character found (`None`
    /// at the end of a statement).
    ParseError { position: usize, expected: Expected, found: Option<char> },
    /// A unit alias that the registry does not have.
    UnknownUnit(String),
    /// Two dimension vectors that the operation needs equal and are not.
    UnitMismatch { kind: MismatchKind, left: DimensionVector, right: DimensionVector },
    /// A division whose divisor is exactly zero.
    DivisionByZero,
    /// A name that no earlier statement has assigned.
    UndefinedVariable(String),
    /// An exact result whose numerator or denominator does not fit the
    /// 64-bit range in which numbers are stored.
    Overflow,
}

/// The mathematical content of an `EngineError`.
pub enum ErrorView {
    ParseError { position: int, expected: Expected, found: Option<char> },
    UnknownUnit(Text),
    UnitMismatch { kind: MismatchKind, left: Dims, right: Dims },
    DivisionByZero,
    UndefinedVariable(Text),
    Overflow,
}

/// The model result is the success `value`.
pub open spec fn succeeds_with<T>(model: Result<T, ErrorView>, value: T) -> bool {
    model == Ok::<T, ErrorView>(value)
}

/// The model result is the failure `error`.
pub open spec fn fails_with<T>(model: Result<T, ErrorView>, error: ErrorView) -> bool {
    model == Err::<T, ErrorView>(error)
}

impl View for EngineError {
    type V = ErrorView;

    open spec fn view(&self) -> ErrorView {
        match self {
            EngineError::ParseError { position, expected, found } => ErrorView::ParseError {
                position: *position as int,
                expected: *expected,
                found: *found,
            },
            EngineError::UnknownUnit(alias) => ErrorView::UnknownUnit(alias@),
            EngineError::UnitMismatch { kind, left, right } => ErrorView::UnitMismatch {
                kind: *kind,
                left: left@,
                right: right@,
            },
            EngineError::DivisionByZero => ErrorView::DivisionByZero,
            EngineError::UndefinedVariable(name) => ErrorView::UndefinedVariable(name@),
            EngineError::Overflow => ErrorView::Overflow,
        }
    }
}

} // verus!
