//! Rate-limited fan-out batch processing: a verified core for distributing a
//! fixed batch of work items across concurrent workers under a global rate
//! limit.

use vstd::prelude::*;

pub mod coordinator;
pub mod limiter;
pub mod partition;
pub mod worker;

verus! {

/// A single unit of work: an identifier plus whatever payload the external
/// task body needs. Immutable once created.
#[derive(Clone, Debug)]
pub struct Sample {
    pub name: String,
}

impl Sample {
    pub fn new(name: String) -> (r: Sample)
        ensures
            r.name@ == name@,
    {
        Sample { name }
    }
}

} // verus!
