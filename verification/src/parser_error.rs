//! A parse failure given as a list of plain messages.
use vstd::prelude::*;

verus! {

/// Errors that can occur when parsing a chord, as messages that give the reason and, where it
/// is known, the position in the input.
#[derive(Debug)]
pub struct ParserErrors {
    pub errors: Vec<String>,
}

impl ParserErrors {
    pub fn new(messages: Vec<String>) -> (r: ParserErrors)
        ensures
            r.errors@ == messages@,
    {
        ParserErrors { errors: messages }
    }
}

} // verus!
