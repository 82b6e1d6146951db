//! Errors of the library.
use vstd::prelude::*;

verus! {

/// Why an operation was refused.
#[derive(Clone, Debug)]
pub enum AppError {
    /// The input cannot be used.
    Invalid(String),
    /// Something named does not exist.
    NotFound(String),
    /// Any other failure, with its message.
    Message(String),
    /// The encoder failed or produced an unusable file.
    Ffmpeg(String),
}

impl AppError {
    /// The error's message.
    pub fn message(&self) -> (r: &String)
        ensures
            match self {
                AppError::Invalid(m) => r == m,
                AppError::NotFound(m) => r == m,
                AppError::Message(m) => r == m,
                AppError::Ffmpeg(m) => r == m,
            },
    {
        match self {
            AppError::Invalid(m) => m,
            AppError::NotFound(m) => m,
            AppError::Message(m) => m,
            AppError::Ffmpeg(m) => m,
        }
    }
}

} // verus!
