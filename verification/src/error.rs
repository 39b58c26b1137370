//! The errors of the store and of the requests to it.

use vstd::prelude::*;
use vstd::string::StringExecFns;

verus! {

/// Why an operation failed.
#[derive(Debug, Clone, PartialEq)]
pub enum Error {
    /// A file or a connection could not be used.
    Io(String),
    /// A text was no valid JSON.
    Json(String),
    /// The operation was refused.
    Msg(String),
}

pub type Result<T> = core::result::Result<T, Error>;

impl Error {
    /// A refusal with the given text.
    pub fn msg(s: String) -> (r: Error)
        ensures
            r == Error::Msg(s),
    {
        Error::Msg(s)
    }

    /// The text of an error.
    pub open spec fn text(self) -> Seq<char> {
        match self {
            Error::Io(s) => "io: "@ + s@,
            Error::Json(s) => "json: "@ + s@,
            Error::Msg(s) => s@,
        }
    }

    /// The error as a text.
    pub fn message(&self) -> (r: String)
        ensures
            r@ == self.text(),
    {
        match self {
            Error::Io(s) => "io: ".to_owned().concat(s),
            Error::Json(s) => "json: ".to_owned().concat(s),
            Error::Msg(s) => s.clone(),
        }
    }
}

} // verus!
