//! The error type shared by the whole crate: a message for the user, the
//! kind of failure, and the process exit code to report.

use vstd::prelude::*;

verus! {

/// The exit code reported for every failure.
pub const FAILURE: i32 = 1;

/// What went wrong.
#[derive(Debug, Clone, Copy, PartialEq, Eq, Structural)]
pub enum ErrorKind {
    Args,
    InsufficientQuery,
    InvalidUnicode,
    IO,
    Terminal,
    Exec,
    NulError,
}

/// A failure: a descriptive message, its kind, and the exit code the
/// process should end with.
#[derive(Debug)]
pub struct Error {
    pub message: String,
    pub kind: ErrorKind,
    pub exit_code: i32,
}

impl Error {
    /// An argument error.
    pub fn args(message: &str) -> (r: Self)
        ensures
            r.message@ == message@,
            r.kind == ErrorKind::Args,
            r.exit_code == FAILURE,
    {
        Error { message: message.to_owned(), kind: ErrorKind::Args, exit_code: FAILURE }
    }

    /// A query that cannot be processed.
    pub fn insufficient_query(message: &str) -> (r: Self)
        ensures
            r.message@ == message@,
            r.kind == ErrorKind::InsufficientQuery,
            r.exit_code == FAILURE,
    {
        Error {
            message: message.to_owned(),
            kind: ErrorKind::InsufficientQuery,
            exit_code: FAILURE,
        }
    }

    /// A path that is not valid Unicode.
    pub fn invalid_unicode(message: &str) -> (r: Self)
        ensures
            r.message@ == message@,
            r.kind == ErrorKind::InvalidUnicode,
            r.exit_code == FAILURE,
    {
        Error { message: message.to_owned(), kind: ErrorKind::InvalidUnicode, exit_code: FAILURE }
    }

    /// A failure to invoke the external command.
    pub fn exec(message: &str) -> (r: Self)
        ensures
            r.message@ == message@,
            r.kind == ErrorKind::Exec,
            r.exit_code == FAILURE,
    {
        Error { message: message.to_owned(), kind: ErrorKind::Exec, exit_code: FAILURE }
    }

    /// The message shown to the user.
    pub fn message(&self) -> (r: &str)
        ensures
            r@ == self.message@,
    {
        self.message.as_str()
    }
}

} // verus!
