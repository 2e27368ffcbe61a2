//! The failures of a run of the command-line client and their exit statuses.

use vstd::prelude::*;

verus! {

/// A user-facing failure with the conventional CLI exit status it requires.
#[derive(Debug, Clone, PartialEq, Eq)]
pub enum AppError {
    /// The command line was refused.
    Usage(String),
    /// The search or its output failed.
    Runtime(String),
}

impl AppError {
    /// The exit status: 2 for a usage error, 1 for a runtime failure.
    pub fn exit_code(&self) -> (code: i32)
        ensures
            code == match self {
                AppError::Usage(_) => 2i32,
                AppError::Runtime(_) => 1i32,
            },
    {
        match self {
            AppError::Usage(_) => 2,
            AppError::Runtime(_) => 1,
        }
    }

    /// The message to show the user.
    pub fn message(&self) -> (m: &String)
        ensures
            *m == match self {
                AppError::Usage(s) => *s,
                AppError::Runtime(s) => *s,
            },
    {
        match self {
            AppError::Usage(s) => s,
            AppError::Runtime(s) => s,
        }
    }
}

} // verus!
