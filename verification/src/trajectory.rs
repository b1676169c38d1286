//! The travel of one car along its path.
//!
//! Progress along the path is the exact fraction `elapsed / duration`, both
//! counted in microseconds. It starts at zero, reaches one when the path has
//! been traversed once, and may run past one until the car is removed.

use vstd::prelude::*;
use crate::curve::Curve;
use crate::curve::Tangent;
use crate::curve::PARAMETER_LIMIT;
use crate::geometry::IVec2;

verus! {

/// The longest duration, and the largest elapsed time, that a trajectory
/// holds, in microseconds. Elapsed time stops growing once it reaches it.
pub const TIME_LIMIT: u64 = PARAMETER_LIMIT;

/// A path together with the time spent on it and the time one traversal takes.
#[derive(Clone, Copy, Debug, PartialEq, Eq, Structural)]
pub struct Trajectory {
    pub curve: Curve,
    pub elapsed: u64,
    pub duration: u64,
}

impl Trajectory {
    /// The duration is positive, and both times are within the limit.
    pub open spec fn wf(&self) -> bool {
        &&& self.curve.wf()
        &&& 0 < self.duration <= TIME_LIMIT
        &&& self.elapsed <= TIME_LIMIT
    }

    /// The trajectory after `dt` more microseconds.
    pub open spec fn advanced(self, dt: u64) -> Trajectory {
        Trajectory {
            curve: self.curve,
            elapsed: if self.elapsed + dt >= TIME_LIMIT {
                TIME_LIMIT
            } else {
                (self.elapsed + dt) as u64
            },
            duration: self.duration,
        }
    }

    /// The point of the path reached so far.
    pub open spec fn current_position(&self) -> IVec2 {
        self.curve.position_at(self.elapsed as int, self.duration as int)
    }

    /// The tangent of the path at the point reached so far.
    pub open spec fn current_velocity(&self) -> Tangent {
        self.curve.velocity_at(self.elapsed as int, self.duration as int)
    }

    /// Starts a trajectory from `start` to `end`, shaped by the two control
    /// offsets, that takes `duration` microseconds to traverse.
    pub fn new(start: IVec2, end: IVec2, factor_c1: i32, factor_c2: i32, duration: u64) -> (t:
        Trajectory)
        requires
            0 < duration <= TIME_LIMIT,
        ensures
            t.wf(),
            t.curve == Curve::generated(start, end, factor_c1, factor_c2),
            t.elapsed == 0,
            t.duration == duration,
    {
        Trajectory { curve: Curve::new(start, end, factor_c1, factor_c2), elapsed: 0, duration }
    }

    /// The position on the path at the current progress.
    pub fn pos(&self) -> (p: IVec2)
        requires
            self.wf(),
        ensures
            p == self.current_position(),
    {
        self.curve.position(self.elapsed, self.duration)
    }

    /// The tangent of the path at the current progress, from which the
    /// heading is taken. It is the zero vector where the path is at rest.
    pub fn vel(&self) -> (v: Tangent)
        requires
            self.wf(),
        ensures
            v == self.current_velocity(),
    {
        self.curve.velocity(self.elapsed, self.duration)
    }

    /// Moves the progress forward by `dt` microseconds of simulated time.
    pub fn advance(&mut self, dt: u64)
        requires
            old(self).wf(),
        ensures
            *final(self) == old(self).advanced(dt),
            final(self).wf(),
    {
        if dt >= TIME_LIMIT - self.elapsed {
            self.elapsed = TIME_LIMIT;
        } else {
            self.elapsed = self.elapsed + dt;
        }
    }
}

/// Advancing never moves progress backward: a step of zero leaves the
/// trajectory as it was, and a positive step strictly increases the elapsed
/// time, and with it the progress, for as long as the time limit has not
/// been reached. The path and the duration never change.
pub proof fn lemma_advance_monotonic(t: Trajectory, dt: u64)
    requires
        t.wf(),
    ensures
        t.advanced(dt).curve == t.curve,
        t.advanced(dt).duration == t.duration,
        t.advanced(dt).elapsed >= t.elapsed,
        dt == 0 ==> t.advanced(dt) == t,
        dt > 0 && t.elapsed < TIME_LIMIT ==> t.advanced(dt).elapsed > t.elapsed,
        t.elapsed + dt <= TIME_LIMIT ==> t.advanced(dt).elapsed == t.elapsed + dt,
{
}

/// A fresh trajectory stands on its first point, and one whose elapsed time
/// equals its duration stands on its last point.
pub proof fn lemma_trajectory_endpoints(t: Trajectory)
    requires
        t.wf(),
    ensures
        t.elapsed == 0 ==> t.current_position() == t.curve.start,
        t.elapsed == t.duration ==> t.current_position() == t.curve.end,
{
    crate::curve::lemma_curve_endpoints(t.curve, t.duration as int);
}

} // verus!
