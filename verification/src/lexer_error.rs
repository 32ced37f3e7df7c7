use vstd::prelude::*;

use crate::span_identifier::SpanIdentifier;

verus! {

/// A lexical error: the span of the offending input and a human-readable
/// message. Surfaced to the caller of tokenization immediately; no partial
/// token stream accompanies it.
#[derive(Debug)]
pub struct LexerError {
    pub id: SpanIdentifier,
    pub message: String,
}

impl LexerError {
    /// The message, for reporting.
    pub fn to_message(&self) -> (s: String)
        ensures
            s@ == self.message@,
    {
        self.message.clone()
    }
}

} // verus!
