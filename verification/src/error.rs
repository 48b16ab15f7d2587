//! The error that serialization reports.

use vstd::prelude::*;

verus! {

/// Serialization error for Typst value conversion: a message.
#[derive(Debug, Clone, PartialEq, Eq)]
pub struct SerError(String);

impl View for SerError {
    type V = Seq<char>;

    closed spec fn view(&self) -> Seq<char> {
        self.0@
    }
}

impl SerError {
    /// An error with the message `msg`.
    pub fn custom(msg: String) -> (e: SerError)
        ensures
            e@ == msg@,
    {
        SerError(msg)
    }

    /// The error's message.
    pub fn message(&self) -> (r: String)
        ensures
            r@ == self@,
    {
        self.0.clone()
    }
}

} // verus!
