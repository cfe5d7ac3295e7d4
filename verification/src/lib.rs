//! A chat-room reminder bot core: a tolerant parser that turns free-text
//! commands into structured reminder specifications, and a scheduler that
//! creates, lists, deletes and fires reminders on a polling due-check loop.
use vstd::prelude::*;

pub mod chars;
pub mod parse;
pub mod render;
pub mod schedule;
pub mod help;
pub mod laws;
pub mod games;

verus! {

/// The unit a reminder interval is counted in.
#[derive(Clone, Copy, Debug, PartialEq, Eq, Structural)]
pub enum IntervalUnit {
    Minute,
    Hour,
    Day,
}

impl IntervalUnit {
    /// Number of seconds in one interval unit.
    pub open spec fn spec_seconds(self) -> u64 {
        match self {
            IntervalUnit::Minute => 60,
            IntervalUnit::Hour => 3600,
            IntervalUnit::Day => 86400,
        }
    }

    /// Number of seconds in one interval unit.
    pub fn seconds(self) -> (r: u64)
        ensures
            r == self.spec_seconds(),
    {
        match self {
            IntervalUnit::Minute => 60,
            IntervalUnit::Hour => 3600,
            IntervalUnit::Day => 86400,
        }
    }
}

} // verus!
