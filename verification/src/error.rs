//! The error of every fallible operation: the message that a user is shown.

use crate::text::text3;
use vstd::prelude::*;

verus! {

/// A failure, described by the message that a user is shown.
#[derive(Debug)]
pub struct Error {
    pub message: String,
}

impl View for Error {
    type V = Seq<char>;

    open spec fn view(&self) -> Seq<char> {
        self.message@
    }
}

/// What a result says, with an error taken by its message.
pub open spec fn outcome<T>(result: Result<T, Error>) -> Result<T, Seq<char>> {
    match result {
        Ok(value) => Ok(value),
        Err(error) => Err(error@),
    }
}

/// What a result says, with both sides taken by their views.
pub open spec fn viewed<T: View>(result: Result<T, Error>) -> Result<T::V, Seq<char>> {
    match result {
        Ok(value) => Ok(value@),
        Err(error) => Err(error@),
    }
}

/// What an optional error says.
pub open spec fn fault(error: Option<Error>) -> Option<Seq<char>> {
    match error {
        Some(error) => Some(error@),
        None => None,
    }
}

/// A message with what was being done before it.
pub open spec fn in_context(message: Seq<char>, context: Seq<char>) -> Seq<char> {
    context + ": "@ + message
}

impl Error {
    pub fn new(message: &str) -> (result: Error)
        ensures
            result@ == message@,
    {
        Error { message: message.to_owned() }
    }

    /// The error with a description of what was being done before its message.
    pub fn context(&self, context: &str) -> (result: Error)
        ensures
            result@ == in_context(self@, context@),
    {
        Error { message: text3(context, ": ", self.message.as_str()) }
    }
}

} // verus!
