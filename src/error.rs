use vstd::prelude::*;

verus! {

/// Why a token sequence is not an expression.
#[derive(Debug, Clone, Copy, PartialEq, Eq, Structural)]
pub enum SyntaxErrorKind {
    /// The input ended where an operand was expected.
    MissingOperand,
    /// A token stands where an operand, an operator or `)` cannot.
    UnexpectedToken,
    /// The `(` at the position has no matching `)`.
    UnclosedParenthesis,
    /// The `)` at the position closes nothing.
    UnmatchedClosingParenthesis,
    /// A name that is not followed by `(`.
    BareIdentifier,
    /// A numeral that does not denote a number, such as `1.2.3` or `1,5`.
    InvalidNumber,
}

/// A syntax error and the index, in the token sequence, of the token it
/// names; the length of the sequence stands for its end.
#[derive(Debug, Clone, Copy, PartialEq, Eq, Structural)]
pub struct SyntaxError {
    pub kind: SyntaxErrorKind,
    pub position: usize,
}

/// Why a well-formed expression has no value.
#[derive(Debug, Clone, PartialEq, Eq)]
pub enum MathError {
    /// A division whose divisor is exactly zero.
    DivisionByZero,
    /// An argument outside the operation's domain, such as the square root of
    /// a negative number.
    DomainError,
    /// A value too large in magnitude to represent.
    Overflow,
    /// A call of a function that the table does not hold, with its name.
    UnknownFunction(String),
}

/// Any error of one line: in its syntax, or in its value.
#[derive(Debug, Clone, PartialEq, Eq)]
pub enum CalcError {
    Syntax(SyntaxError),
    Math(MathError),
}

} // verus!
