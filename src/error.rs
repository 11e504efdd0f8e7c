//! Errors that cross the library's boundary: a stable machine-readable code
//! and a message meant for people.

use vstd::prelude::*;

verus! {

/// The machine-readable part of an error; callers act on this alone.
#[derive(Copy, Clone, Debug, Hash, PartialEq, Eq, Structural)]
pub enum ErrorCode {
    /// Missing, expired or already used session, or a bad signature.
    NotAuthenticated,
    /// Unknown subject, object or key.
    NotFound,
    /// The subject holds no permission for the action.
    NotAuthorized,
    /// No implementation is available for the requested algorithm.
    Unsupported,
    /// A value is badly formed, such as an auth tag that does not fit the cipher.
    Malformed,
    /// An identifier that must be fresh is already in use.
    Conflict,
}

#[derive(Clone, Debug, Hash, PartialEq, Eq)]
pub struct Error {
    text: String,
    mach_code: ErrorCode,
}

impl Error {
    /// The code this error carries.
    pub closed spec fn spec_code(&self) -> ErrorCode {
        self.mach_code
    }

    /// The message this error carries.
    pub closed spec fn spec_text(&self) -> Seq<char> {
        self.text@
    }

    pub fn new(code: ErrorCode, text: &str) -> (r: Error)
        ensures
            r.spec_code() == code,
            r.spec_text() == text@,
    {
        Error { text: text.to_owned(), mach_code: code }
    }

    pub fn code(&self) -> (r: ErrorCode)
        ensures
            r == self.spec_code(),
    {
        self.mach_code
    }

    pub fn message(&self) -> (r: &str)
        ensures
            r@ == self.spec_text(),
    {
        self.text.as_str()
    }
}

} // verus!
