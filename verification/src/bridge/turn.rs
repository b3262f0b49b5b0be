//! One turn of an agent's work: hooks, failures, the limits of use, silence, permission and the
//! end.
use vstd::prelude::*;

pub mod failure;
pub mod perm;
pub mod progress;
pub mod settle;
pub mod stall;
pub mod usage;

verus! {

} // verus!
