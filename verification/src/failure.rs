//! The ways in which schema checking, generation and assembly fail.

use vstd::prelude::*;

verus! {

/// Why no document was produced.
#[derive(Clone, Copy, Debug, PartialEq, Eq, Structural)]
pub enum Failure {
    /// A pattern is not well formed, or a grammar of the schema describes no
    /// text: an empty character class, a repetition whose least count exceeds
    /// its greatest, or an empty choice.
    MalformedGrammar,
    /// A filtered field found no accepted candidate within the retry bound.
    GenerationExhausted,
    /// A value tree does not have the shape of the schema it is held against.
    AssemblyInconsistency,
}

impl Failure {
    /// A short description of the failure.
    pub fn describe(&self) -> (text: &'static str)
        ensures
            text@ == (match *self {
                Failure::MalformedGrammar => "malformed grammar"@,
                Failure::GenerationExhausted => "generation exhausted"@,
                Failure::AssemblyInconsistency => "assembly inconsistency"@,
            }),
    {
        match self {
            Failure::MalformedGrammar => "malformed grammar",
            Failure::GenerationExhausted => "generation exhausted",
            Failure::AssemblyInconsistency => "assembly inconsistency",
        }
    }
}

} // verus!
