//! The error that every fallible operation reports: a message for the user
//! and, where another program or library failed first, what it said.

use vstd::prelude::*;

use crate::text::copy_opt;

verus! {

/// A failure with the message that is shown for it.
#[derive(Debug, PartialEq, Eq)]
pub struct Error {
    pub message: String,
    pub cause: Option<String>,
}

impl Clone for Error {
    fn clone(&self) -> (copy: Self)
        ensures
            copy == *self,
    {
        Error { message: self.message.clone(), cause: copy_opt(&self.cause) }
    }
}

impl Error {
    /// A failure that has no further cause.
    pub fn new(message: String) -> (error: Error)
        ensures
            error.message@ == message@,
            error.cause is None,
    {
        Error { message, cause: None }
    }

    /// A failure that `cause` led to.
    pub fn caused(message: String, cause: String) -> (error: Error)
        ensures
            error.message@ == message@,
            error.cause matches Some(text) && text@ == cause@,
    {
        Error { message, cause: Some(cause) }
    }

    /// The message.
    pub fn to_string(&self) -> (message: String)
        ensures
            message@ == self.message@,
    {
        self.message.clone()
    }
}

} // verus!
