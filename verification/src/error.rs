//! Errors of the tools.

use vstd::prelude::*;

verus! {

/// What a tool fails with.
#[derive(Debug)]
pub enum ZeptoError {
    /// The tool could not do what it was asked for.
    Tool(String),
    /// What it was asked for is not allowed.
    SecurityViolation(String),
}

/// The contents of a [`ZeptoError`].
pub enum ErrorView {
    /// See [`ZeptoError::Tool`].
    Tool(Seq<char>),
    /// See [`ZeptoError::SecurityViolation`].
    SecurityViolation(Seq<char>),
}

impl View for ZeptoError {
    type V = ErrorView;

    open spec fn view(&self) -> ErrorView {
        match *self {
            ZeptoError::Tool(m) => ErrorView::Tool(m@),
            ZeptoError::SecurityViolation(m) => ErrorView::SecurityViolation(m@),
        }
    }
}

/// The contents of a result that carries nothing but its error.
pub open spec fn outcome(r: Result<(), ZeptoError>) -> Result<(), ErrorView> {
    match r {
        Ok(_) => Ok(()),
        Err(e) => Err(e@),
    }
}

/// The message of an error.
pub open spec fn error_text(e: ErrorView) -> Seq<char> {
    match e {
        ErrorView::Tool(m) => m,
        ErrorView::SecurityViolation(m) => m,
    }
}

impl ZeptoError {
    /// The same error.
    pub fn copy(&self) -> (r: ZeptoError)
        ensures
            r@ == self@,
    {
        match self {
            ZeptoError::Tool(m) => ZeptoError::Tool(m.as_str().to_owned()),
            ZeptoError::SecurityViolation(m) => {
                ZeptoError::SecurityViolation(m.as_str().to_owned())
            },
        }
    }

    /// The message.
    pub fn message(&self) -> (r: &str)
        ensures
            r@ == error_text(self@),
    {
        match self {
            ZeptoError::Tool(m) => m.as_str(),
            ZeptoError::SecurityViolation(m) => m.as_str(),
        }
    }
}

} // verus!
