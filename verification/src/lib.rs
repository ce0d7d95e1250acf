//! Verified core of the desktop collaboration app: the accessibility schema,
//! the collaboration board helpers, the currency ledger and the Oxford debate
//! validator.
use vstd::prelude::*;

pub mod text;
pub mod a11y;
pub mod currency;
pub mod tick;
pub mod adjust;
pub mod paths;
pub mod oxford;
pub mod timefmt;
pub mod launcher;
pub mod project;
pub mod mcp;
pub mod snapshot;
pub mod board;
pub mod roster;
pub mod sections;
pub mod groups;
pub mod build_info;
pub mod roundtrip;
pub mod decisions;
pub mod discussion;
pub mod audio;
pub mod roles;
pub mod spawn;
pub mod terminal;
pub mod desktop;
pub mod tick_replay;

verus! {
} // verus!
