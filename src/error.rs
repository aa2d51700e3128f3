//! Errors: what went wrong, and where in the source when that is known.
use vstd::prelude::*;
use crate::input_reader::Position;

verus! {

/// Everything that can go wrong while reading, arranging or evaluating an expression.
#[derive(Debug, Clone, PartialEq, Eq)]
pub enum Error {
    /// A division whose right operand is zero.
    DivByZero,
    /// A power whose exponent is negative.
    NegativeExponent,
    /// A character that starts no token.
    InvalidCharacter { c: char },
    /// A numeric literal that cannot be read (a second decimal point, a digit outside ASCII).
    InvalidNumber { found: String },
    /// Something other than what the grammar allows at this point.
    Expected { expected: String, found: String },
    /// The input ended while more was needed.
    UnexpectedEOI,
    /// An operand that cannot be used where it stands.
    InvalidOperand { op: String },
    /// An operator that cannot be used where it stands.
    InvalidOperator { op: String },
    /// A postfix sequence that does not reduce to a single value.
    InvalidExpression { reason: String },
    /// An identifier with no binding.
    UndefinedVariable { name: String },
    /// A call of a function that is not registered.
    UndefinedFunction { name: String },
    /// A registered function called with the wrong number of arguments.
    InvalidArgumentCount { name: String, expected: usize, got: usize },
    /// An argument of a function call that is neither a number, an identifier nor a call.
    InvalidArgument { name: String, value: String },
    /// An expression that starts with an operator other than `-` or `(`.
    InvalidLeadingOperator { op: String },
    /// An opening parenthesis right after an operand.
    MissingOperator,
    /// A parenthesis without its partner.
    MismatchedParentheses { found: char, missing: char },
    /// An expression without any token.
    EmptyExpression,
    /// Two operands with no operator between them.
    TwoOperandsInARow,
    /// A message of a caller's own function.
    Other(String),
}

/// The mathematical picture of an [`Error`]: every text field as its characters.
pub enum ErrorView {
    DivByZero,
    NegativeExponent,
    InvalidCharacter { c: char },
    InvalidNumber { found: Seq<char> },
    Expected { expected: Seq<char>, found: Seq<char> },
    UnexpectedEOI,
    InvalidOperand { op: Seq<char> },
    InvalidOperator { op: Seq<char> },
    InvalidExpression { reason: Seq<char> },
    UndefinedVariable { name: Seq<char> },
    UndefinedFunction { name: Seq<char> },
    InvalidArgumentCount { name: Seq<char>, expected: nat, got: nat },
    InvalidArgument { name: Seq<char>, value: Seq<char> },
    InvalidLeadingOperator { op: Seq<char> },
    MissingOperator,
    MismatchedParentheses { found: char, missing: char },
    EmptyExpression,
    TwoOperandsInARow,
    Other(Seq<char>),
}

impl View for Error {
    type V = ErrorView;

    open spec fn view(&self) -> ErrorView {
        match self {
            Error::DivByZero => ErrorView::DivByZero,
            Error::NegativeExponent => ErrorView::NegativeExponent,
            Error::InvalidCharacter { c } => ErrorView::InvalidCharacter { c: *c },
            Error::InvalidNumber { found } => ErrorView::InvalidNumber { found: found@ },
            Error::Expected { expected, found } => ErrorView::Expected {
                expected: expected@,
                found: found@,
            },
            Error::UnexpectedEOI => ErrorView::UnexpectedEOI,
            Error::InvalidOperand { op } => ErrorView::InvalidOperand { op: op@ },
            Error::InvalidOperator { op } => ErrorView::InvalidOperator { op: op@ },
            Error::InvalidExpression { reason } => ErrorView::InvalidExpression { reason: reason@ },
            Error::UndefinedVariable { name } => ErrorView::UndefinedVariable { name: name@ },
            Error::UndefinedFunction { name } => ErrorView::UndefinedFunction { name: name@ },
            Error::InvalidArgumentCount { name, expected, got } => ErrorView::InvalidArgumentCount {
                name: name@,
                expected: *expected as nat,
                got: *got as nat,
            },
            Error::InvalidArgument { name, value } => ErrorView::InvalidArgument {
                name: name@,
                value: value@,
            },
            Error::InvalidLeadingOperator { op } => ErrorView::InvalidLeadingOperator { op: op@ },
            Error::MissingOperator => ErrorView::MissingOperator,
            Error::MismatchedParentheses { found, missing } => ErrorView::MismatchedParentheses {
                found: *found,
                missing: *missing,
            },
            Error::EmptyExpression => ErrorView::EmptyExpression,
            Error::TwoOperandsInARow => ErrorView::TwoOperandsInARow,
            Error::Other(s) => ErrorView::Other(s@),
        }
    }
}

impl Error {
    /// The error that a registered function reports when it is called with `got` arguments
    /// instead of `expected`.
    pub fn arg_count(name: String, expected: usize, got: usize) -> (r: Error)
        ensures
            r@ == (ErrorView::InvalidArgumentCount {
                name: name@,
                expected: expected as nat,
                got: got as nat,
            }),
    {
        Error::InvalidArgumentCount { name, expected, got }
    }
}


/// An error with the place in the source where it was found. Errors of the tokenizer and of
/// the postfix arrangement carry one; an empty expression has none.
#[derive(Debug, Clone, PartialEq, Eq)]
pub struct Located {
    pub error: Error,
    pub position: Option<Position>,
}

/// The mathematical picture of a [`Located`] error.
pub struct LocatedView {
    pub error: ErrorView,
    pub position: Option<Position>,
}

impl View for Located {
    type V = LocatedView;

    open spec fn view(&self) -> LocatedView {
        LocatedView { error: self.error@, position: self.position }
    }
}

/// `error` found at `position`.
pub open spec fn found_at(error: ErrorView, position: Position) -> LocatedView {
    LocatedView { error, position: Some(position) }
}

impl Located {
    /// `error` found at `position`.
    pub fn at(error: Error, position: Position) -> (r: Located)
        ensures
            r@ == found_at(error@, position),
    {
        Located { error, position: Some(position) }
    }
}

} // verus!
