//! The bridge between threads and agents: what it remembers, what it decides, and what it says.
use vstd::prelude::*;

pub mod render;
pub mod state;
pub mod turn;
pub mod worker;

verus! {

} // verus!
