//! The agents that run, and those that wait.
use vstd::prelude::*;

pub mod cleanup;
pub mod rounds;
pub mod seats;
pub mod steps;

verus! {

} // verus!
