//! Inputs to a program execution: the public inputs that seed the stack and
//! the two secret input queues consumed by READ, READ2 and CMP.

use vstd::prelude::*;

verus! {

/// The three ordered input sequences of a program run.
pub struct ProgramInputs {
    pub public: Vec<u128>,
    pub secret_a: Vec<u128>,
    pub secret_b: Vec<u128>,
}

impl ProgramInputs {
    /// Bundles public and secret inputs for an execution.
    pub fn new(public: Vec<u128>, secret_a: Vec<u128>, secret_b: Vec<u128>) -> (r: ProgramInputs)
        ensures
            r.public == public,
            r.secret_a == secret_a,
            r.secret_b == secret_b,
    {
        ProgramInputs { public, secret_a, secret_b }
    }

    /// The inputs placed on the stack before the first cycle.
    pub fn get_public_inputs(&self) -> (r: &Vec<u128>)
        ensures
            r == &self.public,
    {
        &self.public
    }

    /// The two secret input sequences, consumed front to back during execution.
    pub fn get_secret_inputs(&self) -> (r: (&Vec<u128>, &Vec<u128>))
        ensures
            r.0 == &self.secret_a,
            r.1 == &self.secret_b,
    {
        (&self.secret_a, &self.secret_b)
    }
}

} // verus!
