//! Errors of evaluation and of the built-in functions.
use vstd::prelude::*;

verus! {

/// Why a statement could not be evaluated.
#[derive(Debug, PartialEq, Eq)]
pub enum InterpretError {
    /// The token is not an operator that applies to values
    WrongCategory,
    /// The right side of `=~` or `!~` is not a regular expression
    UnparseableRegex(String),
    /// Division or remainder by zero
    DivisionByZero,
    /// The name is bound to a function where a value is needed
    NotAssignable(String),
    /// No user function or built-in carries this name
    UnknownFunction(String),
    /// The left side of an assignment is neither a variable nor an element
    InvalidTarget,
    /// An element was read from a value that is neither array nor dictionary
    NotIndexable(String),
    /// An array element was addressed by a negative index
    NegativeIndex(i64),
    /// No source is known under the key that an inclusion names
    Load(String),
    /// A statement that evaluation does not take here
    Unsupported,
    /// The evaluation budget is spent
    StepLimit,
    /// A built-in function failed
    Function(FunctionErrorKind),
    /// The source did not parse
    Syntax,
}

/// Why a built-in function failed.
#[derive(Debug, PartialEq, Eq)]
pub enum FunctionErrorKind {
    /// An argument has the wrong type or value
    WrongArgument(String),
    /// A required argument is missing
    MissingArgument(String),
}

} // verus!
