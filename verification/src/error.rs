//! The ways in which a line of Forth can fail.

use vstd::prelude::*;

verus! {

/// Why an operation of the engine failed.
#[derive(Debug, Clone, PartialEq, Eq)]
pub enum ForthError {
    /// A pop found the parameter stack empty.
    EmptyStack,
    /// A `(` comment was not closed before the input ended.
    UnterminatedComment,
    /// A token is neither an integer literal nor a word of the dictionary.
    WordNotFound,
    /// `:` found no `;` before the input ended.
    UnterminatedWordDefinition,
    /// `:` found no name after itself.
    WordNameNotFound,
    /// `emit` got a value that is no single-byte character.
    InvalidCharacter,
    /// The instruction pointer was sent outside the statement; the text says how.
    InvalidJump(String),
    /// `branch` or `?branch` is not followed by an integer literal.
    ExpectedNumber,
    /// `;` was run as a word of its own.
    SemicolonOutsideOfWordDefinition,
    /// `/`, `mod`, `*/` or `*/mod` got zero as its divisor.
    DivisionByZero,
    /// A run has run as many tokens as the engine's step limit allows, and more are left.
    StepLimitExceeded,
}

/// A `ForthError` as contracts see it: the text of an invalid jump is a
/// sequence of characters.
pub enum ErrorKind {
    EmptyStack,
    UnterminatedComment,
    WordNotFound,
    UnterminatedWordDefinition,
    WordNameNotFound,
    InvalidCharacter,
    InvalidJump(Seq<char>),
    ExpectedNumber,
    SemicolonOutsideOfWordDefinition,
    DivisionByZero,
    StepLimitExceeded,
}

impl View for ForthError {
    type V = ErrorKind;

    open spec fn view(&self) -> ErrorKind {
        match self {
            ForthError::EmptyStack => ErrorKind::EmptyStack,
            ForthError::UnterminatedComment => ErrorKind::UnterminatedComment,
            ForthError::WordNotFound => ErrorKind::WordNotFound,
            ForthError::UnterminatedWordDefinition => ErrorKind::UnterminatedWordDefinition,
            ForthError::WordNameNotFound => ErrorKind::WordNameNotFound,
            ForthError::InvalidCharacter => ErrorKind::InvalidCharacter,
            ForthError::InvalidJump(text) => ErrorKind::InvalidJump(text@),
            ForthError::ExpectedNumber => ErrorKind::ExpectedNumber,
            ForthError::SemicolonOutsideOfWordDefinition => {
                ErrorKind::SemicolonOutsideOfWordDefinition
            },
            ForthError::DivisionByZero => ErrorKind::DivisionByZero,
            ForthError::StepLimitExceeded => ErrorKind::StepLimitExceeded,
        }
    }
}

/// What an operation of the engine returns.
pub type ForthResult<T> = Result<T, ForthError>;

/// How an operation that returns no value ended, as contracts see it.
pub type Outcome = Result<(), ErrorKind>;

/// The outcome that a result stands for.
pub open spec fn outcome(r: ForthResult<()>) -> Outcome {
    match r {
        Ok(_) => Ok(()),
        Err(e) => Err(e@),
    }
}

} // verus!
