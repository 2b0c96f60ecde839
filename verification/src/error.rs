//! Errors of the graph executors.

use vstd::prelude::*;

verus! {

/// What a backend reports when an op cannot be run.
#[derive(Debug)]
pub enum Error {
    /// A failure inside a backend, described by its message.
    Backend(String),
}

/// A backend error with the given message.
pub fn backend(message: &str) -> (e: Error)
    ensures
        e matches Error::Backend(m) && m@ == message@,
{
    Error::Backend(message.to_string())
}

impl Error {
    /// The text of the error: its message.
    pub open spec fn text(self) -> Seq<char> {
        match self {
            Error::Backend(message) => message@,
        }
    }

    /// The error as text.
    pub fn to_string(&self) -> (s: String)
        ensures
            s@ == self.text(),
    {
        match self {
            Error::Backend(message) => message.clone(),
        }
    }
}

} // verus!
