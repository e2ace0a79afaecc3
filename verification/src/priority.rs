//! The seven abstract thread priority levels.

use vstd::prelude::*;

verus! {

/// A scheduling weight for the calling thread, from idle-only background
/// work up to real-time. Each platform maps these onto its own surface.
#[derive(Debug, Clone, Copy, PartialEq, Eq, PartialOrd, Ord, Hash, Structural)]
pub enum ThreadPriority {
    /// Runs only when the CPU is otherwise idle.
    Background,
    /// Not time-sensitive, but above background noise.
    Lowest,
    /// Less critical than normal work.
    BelowNormal,
    /// The default level.
    Normal,
    /// More important than normal, short of real-time.
    AboveNormal,
    /// Deadline-sensitive; maps to a real-time policy where one exists.
    Highest,
    /// The highest precedence available; use with caution.
    TimeCritical,
}

impl ThreadPriority {
    /// The position of the level in the seven-entry policy tables,
    /// lowest first.
    pub open spec fn spec_index(self) -> int {
        match self {
            ThreadPriority::Background => 0,
            ThreadPriority::Lowest => 1,
            ThreadPriority::BelowNormal => 2,
            ThreadPriority::Normal => 3,
            ThreadPriority::AboveNormal => 4,
            ThreadPriority::Highest => 5,
            ThreadPriority::TimeCritical => 6,
        }
    }

    /// The position of the level in the seven-entry policy tables.
    pub fn index(&self) -> (r: usize)
        ensures
            r == self.spec_index(),
    {
        match self {
            ThreadPriority::Background => 0,
            ThreadPriority::Lowest => 1,
            ThreadPriority::BelowNormal => 2,
            ThreadPriority::Normal => 3,
            ThreadPriority::AboveNormal => 4,
            ThreadPriority::Highest => 5,
            ThreadPriority::TimeCritical => 6,
        }
    }
}

impl Default for ThreadPriority {
    /// The default level is `Normal`.
    fn default() -> (r: ThreadPriority)
        ensures
            r is Normal,
    {
        ThreadPriority::Normal
    }
}

} // verus!
