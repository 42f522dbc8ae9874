//! Error kinds of the request/response engine.

use vstd::prelude::*;

verus! {

/// What can go wrong while encoding a request or consuming a response.
#[derive(Debug, Clone, PartialEq, Eq)]
pub enum Error {
    /// A unit could not be encoded for the wire; carries the offending name
    /// or value description.
    Encoding(String),
    /// The response stream violated the token framing or an ordering
    /// invariant; fatal to the current response.
    Protocol(String),
    /// A named return value was absent or not convertible; carries the name.
    Conversion(String),
}

impl Error {
    /// The text carried by the error, whatever its kind.
    pub fn message(&self) -> (r: &str)
        ensures
            r@ == self.spec_message(),
    {
        match self {
            Error::Encoding(s) => s.as_str(),
            Error::Protocol(s) => s.as_str(),
            Error::Conversion(s) => s.as_str(),
        }
    }

    /// The text carried by the error, as a sequence of characters.
    pub open spec fn spec_message(&self) -> Seq<char> {
        match self {
            Error::Encoding(s) => s@,
            Error::Protocol(s) => s@,
            Error::Conversion(s) => s@,
        }
    }
}

} // verus!
