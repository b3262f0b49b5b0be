//! Slack: progress messages, reply limits, ids, and reading what Slack sends.
use vstd::prelude::*;

pub mod diff;
pub mod events;
pub mod input;
pub mod limits;
pub mod lines;
pub mod pages;
pub mod rows;
pub mod sticky;
pub mod wire;

verus! {

} // verus!
