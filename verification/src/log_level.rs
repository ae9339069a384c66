//! How much the programs tell about what they do.

use vstd::prelude::*;

verus! {

/// A level of diagnostics.
#[derive(Clone, Copy, Debug, PartialEq, Eq, Structural)]
pub enum LogLevel {
    Error,
    Warn,
    Info,
    Debug,
    Trace,
}

impl LogLevel {
    /// How many levels are below this one.
    pub open spec fn rank(self) -> usize {
        match self {
            LogLevel::Error => 0,
            LogLevel::Warn => 1,
            LogLevel::Info => 2,
            LogLevel::Debug => 3,
            LogLevel::Trace => 4,
        }
    }

    /// Return the verbosity of the level: 0 for errors alone, one more for each level above.
    pub fn verbosity(self) -> (n: usize)
        ensures
            n == self.rank(),
    {
        match self {
            LogLevel::Error => 0,
            LogLevel::Warn => 1,
            LogLevel::Info => 2,
            LogLevel::Debug => 3,
            LogLevel::Trace => 4,
        }
    }
}

/// Each level tells one thing more than the level before it, from errors alone to everything.
pub proof fn law_levels_build_on_each_other()
    ensures
        LogLevel::Error.rank() == 0,
        LogLevel::Warn.rank() == LogLevel::Error.rank() + 1,
        LogLevel::Info.rank() == LogLevel::Warn.rank() + 1,
        LogLevel::Debug.rank() == LogLevel::Info.rank() + 1,
        LogLevel::Trace.rank() == LogLevel::Debug.rank() + 1,
{
}

} // verus!
