use vstd::prelude::*;

verus! {

/// Severity of an event, from the most severe (`Error`) to the most verbose (`Trace`).
#[derive(Clone, Copy, Debug, PartialEq, Eq, Structural)]
pub enum Level {
    Error,
    Warn,
    Info,
    Debug,
    Trace,
}

impl Level {
    /// Position of the level in the canonical order: `Error` is 0, `Trace` is 4.
    /// A larger value means a more verbose level.
    pub open spec fn verbosity(self) -> nat {
        match self {
            Level::Error => 0,
            Level::Warn => 1,
            Level::Info => 2,
            Level::Debug => 3,
            Level::Trace => 4,
        }
    }

    /// Whether a level is at most as verbose as `threshold`.
    pub open spec fn spec_within(self, threshold: Level) -> bool {
        self.verbosity() <= threshold.verbosity()
    }

    /// The level's position in the canonical order.
    pub fn rank(&self) -> (r: u8)
        ensures
            r as nat == self.verbosity(),
    {
        match self {
            Level::Error => 0,
            Level::Warn => 1,
            Level::Info => 2,
            Level::Debug => 3,
            Level::Trace => 4,
        }
    }

    /// Whether this level passes a severity filter whose threshold is `threshold`:
    /// it must not be strictly more verbose than the threshold.
    pub fn is_within(&self, threshold: &Level) -> (r: bool)
        ensures
            r == self.spec_within(*threshold),
    {
        self.rank() <= threshold.rank()
    }

    /// The canonical upper-case name of the level.
    pub fn as_str(&self) -> (r: &'static str)
        ensures
            r@ == self.spec_name(),
    {
        match self {
            Level::Error => "ERROR",
            Level::Warn => "WARN",
            Level::Info => "INFO",
            Level::Debug => "DEBUG",
            Level::Trace => "TRACE",
        }
    }

    pub open spec fn spec_name(self) -> Seq<char> {
        match self {
            Level::Error => "ERROR"@,
            Level::Warn => "WARN"@,
            Level::Info => "INFO"@,
            Level::Debug => "DEBUG"@,
            Level::Trace => "TRACE"@,
        }
    }
}

} // verus!
