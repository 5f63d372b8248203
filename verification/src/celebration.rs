//! The post-answer celebration pause: a fixed-length interval measured
//! against a caller-supplied clock reading in milliseconds.

use vstd::prelude::*;

verus! {

/// How long a celebration lasts, in milliseconds.
pub open spec fn celebration_millis() -> int {
    1500
}

/// One celebration pause, pinned to the moment it started.
#[derive(Debug, Clone)]
pub struct Celebration {
    pub started_at_millis: u64,
    pub duration_millis: u64,
}

impl Celebration {
    /// Starts a celebration at the given clock reading.
    pub fn new(now_millis: u64) -> (r: Celebration)
        ensures
            r.started_at_millis == now_millis,
            r.duration_millis == celebration_millis(),
    {
        Celebration { started_at_millis: now_millis, duration_millis: 1500 }
    }

    /// Whether the celebration is still running at the given clock
    /// reading; a reading before the start counts as active.
    pub fn is_active(&self, now_millis: u64) -> (r: bool)
        ensures
            r == ((now_millis as int) < self.started_at_millis as int
                + self.duration_millis as int),
    {
        if now_millis >= self.started_at_millis {
            now_millis - self.started_at_millis < self.duration_millis
        } else {
            true
        }
    }
}

} // verus!
