//! Product error carried across the dialect layer.

use vstd::prelude::*;

verus! {

/// Error with a human-readable message.
#[derive(Debug, Clone, PartialEq, Eq)]
pub struct SxoError {
    /// Message text.
    pub message: String,
}

impl SxoError {
    /// Error holding `message`.
    pub fn new(message: String) -> (e: SxoError)
        ensures
            e.message@ == message@,
    {
        SxoError { message }
    }
}

/// The error whose message is `text`.
pub fn error_from_str(text: &str) -> (e: SxoError)
    ensures
        e.message@ == text@,
{
    SxoError { message: String::from_str(text) }
}

} // verus!
