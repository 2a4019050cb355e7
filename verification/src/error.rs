//! Errors that are shown to the user as one line, without a trace.

use vstd::prelude::*;

verus! {

/// A failure whose message is meant for the user.
#[derive(Debug)]
pub struct UserError {
    pub message: String,
}

impl UserError {
    pub fn new(message: String) -> (e: UserError)
        ensures
            e.message@ == message@,
    {
        UserError { message }
    }

    /// The message, as the user sees it.
    pub fn to_string(&self) -> (s: String)
        ensures
            s@ == self.message@,
    {
        self.message.clone()
    }
}

} // verus!
