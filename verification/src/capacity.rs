//! How much work the server holds: open rooms and running matches, against
//! a configured capacity. The counters are shared between tasks by the
//! caller, which also works out the load as a fraction.
use vstd::prelude::*;

verus! {

#[derive(Debug, Clone)]
pub struct CapacityTracker {
    pub active_rooms: usize,
    pub active_matches: usize,
    pub max_capacity: usize,
    pub max_claim_delay_ms: u64,
}

/// A snapshot for the capacity endpoint.
#[derive(Debug, Clone)]
pub struct CapacityStats {
    pub active_rooms: usize,
    pub active_matches: usize,
    pub total_active: usize,
    pub max_capacity: usize,
    pub load_percentage: u32,
}

/// The counters after a match is claimed.
pub open spec fn claimed(t: CapacityTracker) -> CapacityTracker {
    CapacityTracker { active_matches: (t.active_matches + 1) as usize, ..t }
}

/// The counters after a match is released, never below zero.
pub open spec fn released(t: CapacityTracker) -> CapacityTracker {
    CapacityTracker {
        active_matches: if t.active_matches > 0 {
            (t.active_matches - 1) as usize
        } else {
            0
        },
        ..t
    }
}

impl CapacityTracker {
    /// An idle server.
    pub fn new(max_capacity: usize, max_claim_delay_ms: u64) -> (t: CapacityTracker)
        ensures
            t.active_rooms == 0,
            t.active_matches == 0,
            t.max_capacity == max_capacity,
            t.max_claim_delay_ms == max_claim_delay_ms,
    {
        CapacityTracker { active_rooms: 0, active_matches: 0, max_capacity, max_claim_delay_ms }
    }

    /// Rooms and matches together.
    pub fn total(&self) -> (n: usize)
        requires
            self.active_rooms + self.active_matches <= usize::MAX,
        ensures
            n == self.active_rooms + self.active_matches,
    {
        self.active_rooms + self.active_matches
    }

    /// A match was claimed.
    pub fn increment_matches(&mut self)
        requires
            old(self).active_matches < usize::MAX,
        ensures
            *final(self) == claimed(*old(self)),
    {
        self.active_matches = self.active_matches + 1;
    }

    /// A match was released; the count never goes below zero.
    pub fn decrement_matches(&mut self)
        ensures
            *final(self) == released(*old(self)),
    {
        self.active_matches = self.active_matches.saturating_sub(1);
    }

    /// Whether the server can take more work: fewer rooms and matches than
    /// its capacity.
    pub fn can_accept_work(&self) -> (b: bool)
        requires
            self.active_rooms + self.active_matches <= usize::MAX,
        ensures
            b == (self.active_rooms + self.active_matches < self.max_capacity),
    {
        self.active_rooms + self.active_matches < self.max_capacity
    }

    /// The counters, with the load as a percentage of capacity, which the
    /// caller works out in floating point.
    pub fn get_stats(&self, load_percentage: u32) -> (s: CapacityStats)
        requires
            self.active_rooms + self.active_matches <= usize::MAX,
        ensures
            s.active_rooms == self.active_rooms,
            s.active_matches == self.active_matches,
            s.total_active == self.active_rooms + self.active_matches,
            s.max_capacity == self.max_capacity,
            s.load_percentage == load_percentage,
    {
        CapacityStats {
            active_rooms: self.active_rooms,
            active_matches: self.active_matches,
            total_active: self.active_rooms + self.active_matches,
            max_capacity: self.max_capacity,
            load_percentage,
        }
    }
}

/// Releasing a match just claimed restores the counters.
pub proof fn law_claim_release(t: CapacityTracker)
    requires
        t.active_matches < usize::MAX,
    ensures
        released(claimed(t)) == t,
{
}

} // verus!
