//! The failure taxonomy of the evaluator. Every failure aborts the current
//! evaluation and is propagated to the caller; none is recovered from inside.

use vstd::prelude::*;

use crate::expr::{Expr, SpecExpr};

verus! {

/// An evaluation failure.
#[derive(Debug, PartialEq)]
pub enum Error {
    /// A value of the wrong shape was coerced (expected number, expected
    /// symbol).
    TypeError,
    /// A symbol lookup missed in the environment; carries the symbol's name.
    UnboundVariable(String),
    /// A built-in received an argument count outside its accepted range.
    ArityError,
    /// Curry substitution referenced a parameter position with no
    /// corresponding supplied argument.
    SubstitutionIndexError,
    /// An `if` without an `otherwise` branch had a false predicate.
    NoBranchTaken,
    /// A division built-in was asked to divide by zero.
    DivisionByZero,
    /// The evaluator's step budget ran out before the expression reduced.
    Exhausted,
}

/// The mathematical model of an [`Error`].
pub ghost enum SpecError {
    TypeError,
    UnboundVariable(Seq<char>),
    ArityError,
    SubstitutionIndexError,
    NoBranchTaken,
    DivisionByZero,
    Exhausted,
}

impl View for Error {
    type V = SpecError;

    open spec fn view(&self) -> SpecError {
        match self {
            Error::TypeError => SpecError::TypeError,
            Error::UnboundVariable(s) => SpecError::UnboundVariable(s@),
            Error::ArityError => SpecError::ArityError,
            Error::SubstitutionIndexError => SpecError::SubstitutionIndexError,
            Error::NoBranchTaken => SpecError::NoBranchTaken,
            Error::DivisionByZero => SpecError::DivisionByZero,
            Error::Exhausted => SpecError::Exhausted,
        }
    }
}

/// Whether an executable outcome carries exactly the value or error that the
/// specification names.
pub open spec fn result_matches(r: Result<Expr, Error>, s: Result<SpecExpr, SpecError>) -> bool {
    match (r, s) {
        (Ok(e), Ok(se)) => e@ == se,
        (Err(e), Err(se)) => e@ == se,
        _ => false,
    }
}

} // verus!
