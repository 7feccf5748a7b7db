//! The error type shared by all operations of this crate.

use vstd::prelude::*;

verus! {

/// One error kind per failure source: OS input/output, version control,
/// pseudo-terminal handling, rejected caller input, and a missing session or
/// path. Each variant carries a human-readable message.
#[derive(Debug)]
pub enum AppError {
    Io(String),
    Git(String),
    Pty(String),
    InvalidInput(String),
    NotFound(String),
}

impl AppError {
    /// The message carried by the error, whichever the variant.
    pub open spec fn spec_message(&self) -> Seq<char> {
        match self {
            AppError::Io(msg) => msg@,
            AppError::Git(msg) => msg@,
            AppError::Pty(msg) => msg@,
            AppError::InvalidInput(msg) => msg@,
            AppError::NotFound(msg) => msg@,
        }
    }

    /// The displayable form of the error: exactly the carried message.
    pub fn message(&self) -> (r: String)
        ensures
            r@ == self.spec_message(),
    {
        match self {
            AppError::Io(msg) => msg.clone(),
            AppError::Git(msg) => msg.clone(),
            AppError::Pty(msg) => msg.clone(),
            AppError::InvalidInput(msg) => msg.clone(),
            AppError::NotFound(msg) => msg.clone(),
        }
    }
}

} // verus!
