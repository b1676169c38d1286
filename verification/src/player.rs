//! The player-controlled entity and its response to held directions.

use vstd::prelude::*;
use crate::geometry::IVec2;
use crate::numeric::clamp_i32;
use crate::numeric::saturate_i32;
use crate::numeric::trunc_div;

verus! {

/// The speed, in world units per second, gained in each second that a
/// direction is held.
pub const ACCELERATION: u64 = 1024;

/// Each update keeps `DECAY_NUMERATOR / DECAY_DENOMINATOR` of the velocity.
pub const DECAY_NUMERATOR: u64 = 4;

/// See `DECAY_NUMERATOR`.
pub const DECAY_DENOMINATOR: u64 = 5;

/// The number of microseconds in a second.
pub const MICROS_PER_SECOND: u64 = 1_000_000;

/// The directions that are held down at the moment.
#[derive(Clone, Copy, Debug, PartialEq, Eq, Structural)]
pub struct Intent {
    pub up: bool,
    pub right: bool,
    pub down: bool,
    pub left: bool,
}

/// The player: a single entity moved by accumulated velocity.
#[derive(Clone, Copy, Debug, PartialEq, Eq, Structural)]
pub struct Player {
    pub id: u64,
    pub position: IVec2,
    pub velocity: IVec2,
}

/// The sign of the movement along one axis: opposite directions cancel.
pub open spec fn axis_direction(forward: bool, backward: bool) -> int {
    (if forward {
        1int
    } else {
        0int
    }) - (if backward {
        1int
    } else {
        0int
    })
}

/// The speed gained along a held axis during `dt` microseconds, rounded down.
pub open spec fn impulse(dt: u64) -> int {
    (ACCELERATION * dt) / (MICROS_PER_SECOND as int)
}

/// One coordinate of the velocity after an update of `dt` microseconds:
/// the impulse is added along the held direction, the sum decays, is
/// rounded toward zero, and saturates.
pub open spec fn velocity_after(v: i32, direction: int, dt: u64) -> int {
    clamp_i32(
        trunc_div(
            (v + direction * impulse(dt)) * DECAY_NUMERATOR as int,
            DECAY_DENOMINATOR as int,
        ),
    )
}

fn update_axis(v: i32, forward: bool, backward: bool, dt: u64) -> (r: i32)
    ensures
        r == velocity_after(v, axis_direction(forward, backward), dt),
{
    let gain: i128 = (1024 * (dt as i128)) / 1_000_000;
    let pushed: i128 = if forward && !backward {
        v as i128 + gain
    } else if backward && !forward {
        v as i128 - gain
    } else {
        v as i128
    };
    proof {
        let direction = axis_direction(forward, backward);
        assert(gain == impulse(dt));
        assert(direction * impulse(dt) == pushed - v) by (nonlinear_arith)
            requires
                direction == 1 ==> pushed - v == impulse(dt),
                direction == -1 ==> pushed - v == -impulse(dt),
                direction == 0 ==> pushed - v == 0,
                -1 <= direction <= 1,
        ;
        assert((v + direction * impulse(dt)) * 4 == pushed * 4);
    }
    saturate_i32((pushed * 4) / 5)
}

impl Intent {
    /// No direction held.
    pub fn idle() -> (i: Intent)
        ensures
            i == (Intent { up: false, right: false, down: false, left: false }),
    {
        Intent { up: false, right: false, down: false, left: false }
    }

    /// The sign of the horizontal movement: right is positive.
    pub open spec fn horizontal(self) -> int {
        axis_direction(self.right, self.left)
    }

    /// The sign of the vertical movement: up is positive.
    pub open spec fn vertical(self) -> int {
        axis_direction(self.up, self.down)
    }
}

impl Player {
    /// The player after an update of `dt` microseconds under `intent`.
    pub open spec fn moved(self, intent: Intent, dt: u64) -> Player {
        Player {
            id: self.id,
            position: self.position,
            velocity: IVec2 {
                x: velocity_after(self.velocity.x, intent.horizontal(), dt) as i32,
                y: velocity_after(self.velocity.y, intent.vertical(), dt) as i32,
            },
        }
    }

    /// The player sent back to the world origin, as a contact with a car does.
    pub open spec fn reset(self) -> Player {
        Player { id: self.id, position: IVec2::origin(), velocity: self.velocity }
    }

    /// A player at rest on the world origin.
    pub fn new(id: u64) -> (p: Player)
        ensures
            p == (Player { id, position: IVec2::origin(), velocity: IVec2::origin() }),
    {
        Player { id, position: IVec2::zero(), velocity: IVec2::zero() }
    }

    /// Accumulates velocity along the held directions, then lets it decay.
    /// The position is left to whoever integrates the velocity.
    pub fn movement(&mut self, intent: Intent, dt: u64)
        ensures
            *final(self) == old(self).moved(intent, dt),
    {
        let x: i32 = update_axis(self.velocity.x, intent.right, intent.left, dt);
        let y: i32 = update_axis(self.velocity.y, intent.up, intent.down, dt);
        self.velocity = IVec2 { x, y };
    }
}

/// With nothing held the velocity only decays: its magnitude never grows,
/// it keeps its sign, and a velocity of zero stays zero.
pub proof fn lemma_idle_velocity_decays(v: i32, dt: u64)
    ensures
        v >= 0 ==> 0 <= velocity_after(v, 0, dt) <= v,
        v <= 0 ==> v <= velocity_after(v, 0, dt) <= 0,
{
}

} // verus!
