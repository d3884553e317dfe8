//! The failures a request can end in, and the HTTP status each one maps to.

use vstd::prelude::*;

verus! {

/// Why a request was refused.
#[derive(Clone, Copy, Debug, PartialEq, Eq, Structural)]
pub enum ErrorKind {
    /// The request itself is malformed or asks for something never allowed.
    BadRequest,
    /// The requested path leaves the served directory.
    Forbidden,
    /// The session or file asked for does not exist.
    NotFound,
    /// The server could not do its own part.
    Internal,
}

impl ErrorKind {
    /// The HTTP status code that reports this failure.
    pub open spec fn status(self) -> int {
        match self {
            ErrorKind::BadRequest => 400,
            ErrorKind::Forbidden => 403,
            ErrorKind::NotFound => 404,
            ErrorKind::Internal => 500,
        }
    }

    /// Returns the HTTP status code that reports this failure.
    pub fn status_code(&self) -> (code: u16)
        ensures
            code == self.status(),
    {
        match self {
            ErrorKind::BadRequest => 400,
            ErrorKind::Forbidden => 403,
            ErrorKind::NotFound => 404,
            ErrorKind::Internal => 500,
        }
    }
}

} // verus!
