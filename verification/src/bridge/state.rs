//! What the bridge remembers and decides on its own.
use vstd::prelude::*;

pub mod access;
pub mod decide;
pub mod ledger;
pub mod pool_key;
pub mod pools;
pub mod threads;

verus! {

} // verus!
