//! Countdowns that bound how long a transient entity stays in the world.

use vstd::prelude::*;

verus! {

/// The time, in microseconds, that an entity still has to live.
#[derive(Clone, Copy, Debug, PartialEq, Eq, Structural)]
pub struct Lifetime {
    pub remaining: u64,
}

impl Lifetime {
    /// Whether a step of `dt` microseconds uses up what remains.
    pub open spec fn expires_within(self, dt: u64) -> bool {
        dt >= self.remaining
    }

    /// The countdown after a step of `dt` microseconds.
    pub open spec fn ticked(self, dt: u64) -> Lifetime {
        Lifetime {
            remaining: if dt >= self.remaining {
                0
            } else {
                (self.remaining - dt) as u64
            },
        }
    }

    /// A countdown of `remaining` microseconds.
    pub fn new(remaining: u64) -> (l: Lifetime)
        ensures
            l.remaining == remaining,
    {
        Lifetime { remaining }
    }

    /// Whether nothing remains.
    pub fn is_expired(&self) -> (expired: bool)
        ensures
            expired == (self.remaining == 0),
    {
        self.remaining == 0
    }

    /// Counts down by `dt` microseconds and tells whether the countdown has
    /// run out: it has exactly when `dt` is at least what remained.
    pub fn tick(&mut self, dt: u64) -> (expired: bool)
        ensures
            *final(self) == old(self).ticked(dt),
            expired == old(self).expires_within(dt),
            expired == (final(self).remaining == 0),
    {
        if dt >= self.remaining {
            self.remaining = 0;
            true
        } else {
            self.remaining = self.remaining - dt;
            false
        }
    }
}

} // verus!
