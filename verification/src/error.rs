//! The error type shared by every boundary of the laboratory.

use vstd::prelude::*;

verus! {

/// Why a request was refused. The first three variants carry a stable code.
#[derive(Debug)]
pub enum BrainError {
    /// The input itself is malformed or out of bounds.
    Invalid(String),
    /// Two authenticated facts contradict each other.
    Integrity(String),
    /// A numerical procedure has no admissible outcome.
    Numerical(String),
    /// A document is not JSON or does not have the expected structure.
    Json,
    /// The operating system refused an operation.
    Io,
}

/// What contracts say about a [`BrainError`].
pub enum ErrorView {
    Invalid(Seq<char>),
    Integrity(Seq<char>),
    Numerical(Seq<char>),
    Json,
    Io,
}

pub type BrainResult<T> = Result<T, BrainError>;

impl View for BrainError {
    type V = ErrorView;

    open spec fn view(&self) -> ErrorView {
        match self {
            BrainError::Invalid(code) => ErrorView::Invalid(code@),
            BrainError::Integrity(code) => ErrorView::Integrity(code@),
            BrainError::Numerical(code) => ErrorView::Numerical(code@),
            BrainError::Json => ErrorView::Json,
            BrainError::Io => ErrorView::Io,
        }
    }
}

impl BrainError {
    /// An `Invalid` error with the given code.
    pub fn invalid(code: &str) -> (error: BrainError)
        ensures
            error@ == ErrorView::Invalid(code@),
    {
        BrainError::Invalid(code.to_owned())
    }

    /// An `Integrity` error with the given code.
    pub fn integrity(code: &str) -> (error: BrainError)
        ensures
            error@ == ErrorView::Integrity(code@),
    {
        BrainError::Integrity(code.to_owned())
    }

    /// A `Numerical` error with the given code.
    pub fn numerical(code: &str) -> (error: BrainError)
        ensures
            error@ == ErrorView::Numerical(code@),
    {
        BrainError::Numerical(code.to_owned())
    }

    /// A second copy of the same error.
    pub fn duplicate(&self) -> (copy: BrainError)
        ensures
            copy@ == self@,
    {
        match self {
            BrainError::Invalid(code) => BrainError::Invalid(code.clone()),
            BrainError::Integrity(code) => BrainError::Integrity(code.clone()),
            BrainError::Numerical(code) => BrainError::Numerical(code.clone()),
            BrainError::Json => BrainError::Json,
            BrainError::Io => BrainError::Io,
        }
    }

    /// The stable code of the error, where it carries one.
    pub fn code(&self) -> (code: Option<&str>)
        ensures
            match self@ {
                ErrorView::Invalid(c) | ErrorView::Integrity(c) | ErrorView::Numerical(c) => {
                    code is Some && code->0@ == c
                },
                ErrorView::Json | ErrorView::Io => code is None,
            },
    {
        match self {
            BrainError::Invalid(code) => Some(code.as_str()),
            BrainError::Integrity(code) => Some(code.as_str()),
            BrainError::Numerical(code) => Some(code.as_str()),
            BrainError::Json => None,
            BrainError::Io => None,
        }
    }
}

} // verus!
