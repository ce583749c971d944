//! The ways in which no hypergraph is produced.

use vstd::prelude::*;
use crate::model::ModelError;

verus! {

/// Why no simulation was produced.
#[derive(Clone, Copy, Debug, PartialEq, Eq, Structural)]
pub enum Failure {
    /// All vertices had been deactivated when step `step` was to begin.
    Exhausted { step: u64 },
    /// All of `attempts` runs were exhausted.
    RetriesExhausted { attempts: u64 },
}

impl Failure {
    /// The sentence that describes the failure.
    pub open spec fn spec_message(&self) -> Seq<char> {
        match *self {
            Failure::Exhausted { .. } => "All vertices have been deactivated"@,
            Failure::RetriesExhausted { .. } => "All vertices have been deactivated in every attempt"@,
        }
    }

    /// A sentence that describes the failure.
    pub fn message(&self) -> (text: &'static str)
        ensures
            text@ == self.spec_message(),
    {
        match self {
            Failure::Exhausted { .. } => "All vertices have been deactivated",
            Failure::RetriesExhausted { .. } => "All vertices have been deactivated in every attempt",
        }
    }
}

/// Why `Hypergraph::generate` produced no hypergraph.
#[derive(Clone, Copy, Debug, PartialEq, Eq, Structural)]
pub enum GenerateError {
    /// The probabilities break a rule.
    Invalid(ModelError),
    /// The run failed.
    Failed(Failure),
}

impl GenerateError {
    /// A sentence that describes the error.
    pub fn message(&self) -> (text: &'static str)
        ensures
            text@ == match *self {
                GenerateError::Invalid(e) => e.spec_message(),
                GenerateError::Failed(f) => f.spec_message(),
            },
    {
        match self {
            GenerateError::Invalid(e) => e.message(),
            GenerateError::Failed(f) => f.message(),
        }
    }
}

} // verus!
