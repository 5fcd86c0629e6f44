//! The error of an application message that breaks the ASGI protocol.
use vstd::prelude::*;

verus! {

#[derive(Debug)]
pub struct AsgiSpecError {}

impl AsgiSpecError {
    /// The error's text.
    pub fn message(&self) -> (r: String)
        ensures
            r@ == "AsgiSpecError"@,
    {
        "AsgiSpecError".to_owned()
    }
}

} // verus!
