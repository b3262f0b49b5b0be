//! What the bridge says, from plain data.
use vstd::prelude::*;

pub mod failure;
pub mod notice;
pub mod reports;
pub mod status;

verus! {

} // verus!
