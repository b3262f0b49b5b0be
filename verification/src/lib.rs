//! The decisions of a bridge between Slack threads and coding agents.
use vstd::prelude::*;

pub mod bridge;
pub mod chat;
pub mod clock;
pub mod command;
pub mod fleet;
pub mod i18n;
pub mod json;
pub mod log;
pub mod mcp;
pub mod order;
pub mod product;
pub mod table;
pub mod text;

verus! {

} // verus!
