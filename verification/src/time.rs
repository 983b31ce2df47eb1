//! The response of the time capability.

use vstd::prelude::*;

verus! {

/// The current time as the shell reported it, in the shell's own textual form.
#[derive(Debug, PartialEq, Eq)]
pub struct TimeResponse(pub String);

impl TimeResponse {
    /// Wraps the text that the shell sent back.
    pub fn new(text: String) -> (r: TimeResponse)
        ensures
            r.0 == text,
    {
        TimeResponse(text)
    }

    /// The text of the response.
    pub fn as_str(&self) -> (r: &str)
        ensures
            r@ == self.0@,
    {
        self.0.as_str()
    }
}

} // verus!
