//! The errors of the knowledge base.

use vstd::prelude::*;

verus! {

/// What went wrong while serving a request. Each variant carries the
/// description of its cause.
#[derive(Clone, Debug)]
pub enum KBError {
    /// A login was refused; the text is shown to the user as it stands.
    LoginError(String),
    /// The credentials did not check out; the text says why.
    InvalidCredentials(String),
    /// Anything else; the text describes it.
    UnexpectedError(String),
}

/// Whether `e` is an unexpected error described by `text`.
pub open spec fn is_unexpected(e: KBError, text: Seq<char>) -> bool {
    e matches KBError::UnexpectedError(t) && t@ == text
}

/// Whether `e` reports invalid credentials for the reason `text`.
pub open spec fn is_invalid_credentials(e: KBError, text: Seq<char>) -> bool {
    e matches KBError::InvalidCredentials(t) && t@ == text
}

/// The result of an operation of the knowledge base.
pub type KBResult<T> = Result<T, KBError>;

impl KBError {
    /// What the error says to a user.
    pub open spec fn message(&self) -> Seq<char> {
        match self {
            KBError::LoginError(text) => text@,
            KBError::InvalidCredentials(_) => "Invalid credentials."@,
            KBError::UnexpectedError(text) => text@,
        }
    }

    /// What the error says to a user: the login error's own text, a fixed
    /// notice for invalid credentials, and the description of anything else.
    pub fn to_string(&self) -> (r: String)
        ensures
            r@ == self.message(),
    {
        match self {
            KBError::LoginError(text) => text.clone(),
            KBError::InvalidCredentials(_) => "Invalid credentials.".to_owned(),
            KBError::UnexpectedError(text) => text.clone(),
        }
    }

    /// The HTTP status that answers the error: every error of the knowledge
    /// base is answered with 500 (internal server error).
    pub fn status_code(&self) -> (r: u16)
        ensures
            r == 500,
    {
        500
    }
}

} // verus!
