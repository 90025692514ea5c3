//! A hybrid logical clock: timestamps that grow with every reading and never
//! fall behind what the node has seen of other nodes' clocks.

use vstd::prelude::*;
use crate::Timestamp;

verus! {

#[derive(Clone, Debug, PartialEq, Eq)]
pub struct Clock {
    /// The latest timestamp that was returned or taken over.
    pub last: Timestamp,
    /// How far ahead of the physical time a timestamp of another node may be
    /// and still be taken over.
    pub max_skew: u64,
}

#[derive(Clone, Debug, PartialEq, Eq)]
pub enum ClockError {
    /// The clock has reached the greatest timestamp there is.
    Exhausted,
    /// A timestamp of another node was further ahead of the physical time
    /// than `max_skew` allows. The clock was advanced to `limit`, the
    /// furthest it may go, and not beyond.
    Anomaly { remote: Timestamp, limit: Timestamp },
}

/// The greater of two timestamps.
pub open spec fn later(a: Timestamp, b: Timestamp) -> Timestamp {
    if a >= b {
        a
    } else {
        b
    }
}

/// The timestamp that a clock gives at physical time `physical` after it has
/// given or taken over `last`: the physical time if that is later, else the
/// next after `last`.
pub open spec fn next_stamp(last: Timestamp, physical: Timestamp) -> int {
    if physical > last {
        physical as int
    } else {
        last + 1
    }
}

/// The furthest timestamp that is taken over at physical time `physical`.
pub open spec fn skew_limit(physical: Timestamp, max_skew: u64) -> Timestamp {
    if physical + max_skew > u64::MAX {
        u64::MAX
    } else {
        (physical + max_skew) as u64
    }
}

impl Clock {
    pub fn new(max_skew: u64) -> (c: Self)
        ensures
            c.last == 0,
            c.max_skew == max_skew,
    {
        Clock { last: 0, max_skew }
    }

    /// A timestamp that is greater than every timestamp this clock has
    /// returned or taken over, and not less than the physical time.
    pub fn now(&mut self, physical: Timestamp) -> (r: Result<Timestamp, ClockError>)
        ensures
            final(self).max_skew == old(self).max_skew,
            match r {
                Ok(t) => old(self).last < u64::MAX && t == next_stamp(old(self).last, physical) && final(self).last
                    == t,
                Err(e) => old(self).last == u64::MAX && e is Exhausted && final(self).last == old(self).last,
            },
    {
        if self.last == u64::MAX {
            return Err(ClockError::Exhausted);
        }
        let next = self.last + 1;
        let t = if physical >= next {
            physical
        } else {
            next
        };
        self.last = t;
        Ok(t)
    }

    /// Takes notice of the timestamp of an operation of another node, at
    /// physical time `physical`: later readings of this clock are greater.
    /// A timestamp that is too far ahead is reported and taken over only as
    /// far as the limit.
    pub fn observe(&mut self, remote: Timestamp, physical: Timestamp) -> (r: Result<(), ClockError>)
        ensures
            final(self).max_skew == old(self).max_skew,
            final(self).last >= old(self).last,
            match r {
                Ok(_) => remote <= skew_limit(physical, old(self).max_skew) && final(self).last == later(
                    old(self).last,
                    remote,
                ),
                Err(e) => remote > skew_limit(physical, old(self).max_skew) && e == (ClockError::Anomaly {
                    remote,
                    limit: skew_limit(physical, old(self).max_skew),
                }) && final(self).last == later(old(self).last, skew_limit(physical, old(self).max_skew)),
            },
    {
        let limit = if physical > u64::MAX - self.max_skew {
            u64::MAX
        } else {
            physical + self.max_skew
        };
        if remote > limit {
            if limit > self.last {
                self.last = limit;
            }
            Err(ClockError::Anomaly { remote, limit })
        } else {
            if remote > self.last {
                self.last = remote;
            }
            Ok(())
        }
    }
}

} // verus!
