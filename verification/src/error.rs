//! The errors an evaluation can end with, and the families they belong to.

use vstd::prelude::*;

verus! {

/// The family an error belongs to.
#[derive(Clone, Copy, Debug, PartialEq, Eq, Structural)]
pub enum ErrorKind {
    /// The text could not be split into tokens.
    LexError,
    /// An operator or an assignment lacks an operand.
    IncompleteExpression,
    /// Brackets are unmatched, unclosed or empty.
    BracketError,
    /// `let` was not followed by exactly one fresh name.
    DeclarationError,
    /// The target of an assignment is not a variable.
    AssignmentError,
    /// A name that was never declared was evaluated.
    UndefinedValue,
    /// A variable without a value was evaluated.
    NotInitialized,
    /// A statement left no operand, or more than one.
    InvalidResult,
    /// The exact result of an operation is not a 32-bit integer.
    ArithmeticError,
    /// The statement is larger than the evaluator accepts.
    LimitError,
}

/// Why an evaluation failed.
#[derive(Clone, Copy, Debug, PartialEq, Eq, Structural)]
pub enum CalcError {
    /// A numeric literal holds more than one decimal point, or its integer
    /// part is larger than `i32::MAX`.
    LexError,
    /// An operator or an assignment found fewer than two operands, or an
    /// operator node lacks a child.
    IncompleteExpression,
    /// A closing bracket has no opening bracket to match.
    BracketError,
    /// A bracketed group has no body.
    InvalidBracket,
    /// The input ended inside a bracketed group.
    UnbalancedBrackets,
    /// `let` was not followed by exactly one operand, or that operand is not
    /// an unresolved name.
    DeclarationError,
    /// The target of an assignment is a number.
    CannotAssignToLiteral,
    /// The target of an assignment is an operator expression.
    CannotAssignToOperator,
    /// The target of an assignment is a name that was never declared.
    CannotAssignUninitialized,
    /// The target of an assignment is a bracketed group.
    CannotAssignToBlock,
    /// A name that was never declared was evaluated.
    UndefinedValue,
    /// A variable whose cell is empty, or that names no cell, was evaluated
    /// or written.
    NotInitialized,
    /// A statement left no operand, or more than one, or an open bracket.
    InvalidResult,
    /// The exact sum, difference, product or quotient is outside `i32`.
    Overflow,
    /// The divisor is zero.
    DivisionByZero,
    /// The statement has more tokens than the parser accepts.
    StatementTooLong,
}

impl CalcError {
    /// The family of this error.
    pub open spec fn spec_kind(self) -> ErrorKind {
        match self {
            CalcError::LexError => ErrorKind::LexError,
            CalcError::IncompleteExpression => ErrorKind::IncompleteExpression,
            CalcError::BracketError => ErrorKind::BracketError,
            CalcError::InvalidBracket => ErrorKind::BracketError,
            CalcError::UnbalancedBrackets => ErrorKind::BracketError,
            CalcError::DeclarationError => ErrorKind::DeclarationError,
            CalcError::CannotAssignToLiteral => ErrorKind::AssignmentError,
            CalcError::CannotAssignToOperator => ErrorKind::AssignmentError,
            CalcError::CannotAssignUninitialized => ErrorKind::AssignmentError,
            CalcError::CannotAssignToBlock => ErrorKind::AssignmentError,
            CalcError::UndefinedValue => ErrorKind::UndefinedValue,
            CalcError::NotInitialized => ErrorKind::NotInitialized,
            CalcError::InvalidResult => ErrorKind::InvalidResult,
            CalcError::Overflow => ErrorKind::ArithmeticError,
            CalcError::DivisionByZero => ErrorKind::ArithmeticError,
            CalcError::StatementTooLong => ErrorKind::LimitError,
        }
    }

    /// The family of this error.
    #[verifier::when_used_as_spec(spec_kind)]
    pub fn kind(self) -> (k: ErrorKind)
        ensures
            k == self.spec_kind(),
    {
        match self {
            CalcError::LexError => ErrorKind::LexError,
            CalcError::IncompleteExpression => ErrorKind::IncompleteExpression,
            CalcError::BracketError | CalcError::InvalidBracket | CalcError::UnbalancedBrackets => {
                ErrorKind::BracketError
            },
            CalcError::DeclarationError => ErrorKind::DeclarationError,
            CalcError::CannotAssignToLiteral
            | CalcError::CannotAssignToOperator
            | CalcError::CannotAssignUninitialized
            | CalcError::CannotAssignToBlock => ErrorKind::AssignmentError,
            CalcError::UndefinedValue => ErrorKind::UndefinedValue,
            CalcError::NotInitialized => ErrorKind::NotInitialized,
            CalcError::InvalidResult => ErrorKind::InvalidResult,
            CalcError::Overflow | CalcError::DivisionByZero => ErrorKind::ArithmeticError,
            CalcError::StatementTooLong => ErrorKind::LimitError,
        }
    }
}

} // verus!
