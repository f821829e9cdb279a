use vstd::prelude::*;

verus! {

/// A totally ordered priority attached to a submitted task.
///
/// A larger level is a higher priority: it is drained earlier.
#[derive(Clone, Copy, Debug, PartialEq, Eq, Structural, Hash, PartialOrd, Ord)]
pub struct Priority {
    pub level: u64,
}

impl Priority {
    /// A priority of the given level.
    pub fn new(level: u64) -> (r: Priority)
        ensures
            r.level == level,
    {
        Priority { level }
    }

    /// The level of this priority.
    pub fn level(&self) -> (r: u64)
        ensures
            r == self.level,
    {
        self.level
    }
}

} // verus!
