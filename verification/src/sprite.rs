//! The choice of a sprite frame from a heading.
//!
//! A car is drawn with one of a fixed set of frames that together cover a
//! full turn. Angles are counted in thousandths of a degree.

use vstd::prelude::*;
use vstd::arithmetic::div_mod::lemma_div_is_ordered;
use crate::numeric::floor_div;

verus! {

/// The number of frames that cover a full turn.
pub const FRAME_COUNT: usize = 49;

/// A full turn, in thousandths of a degree.
pub const FULL_TURN: i64 = 360_000;

/// The angle brought into the range of one turn: a negative angle is
/// measured from a full turn downward.
pub open spec fn normalized_angle(angle: int) -> int {
    if angle >= 0 {
        angle
    } else {
        FULL_TURN + angle
    }
}

/// The frame for a heading of `angle` thousandths of a degree: the
/// normalized angle divided by the width of one frame, rounded down and
/// kept within the frame set.
pub open spec fn frame_index(angle: int) -> int {
    let raw = (normalized_angle(angle) * FRAME_COUNT) / (FULL_TURN as int);
    if raw < 0 {
        0
    } else if raw > FRAME_COUNT - 1 {
        FRAME_COUNT - 1
    } else {
        raw
    }
}

/// Picks the sprite frame that shows a car turned by `angle` thousandths of
/// a degree.
pub fn car_sprite_from_rotation(angle: i64) -> (index: usize)
    ensures
        index == frame_index(angle as int),
        index < FRAME_COUNT,
{
    let normalized: i128 = if angle >= 0 {
        angle as i128
    } else {
        360_000 + angle as i128
    };
    let raw: i128 = floor_div(normalized * 49, 360_000);
    if raw < 0 {
        0
    } else if raw > 48 {
        48
    } else {
        raw as usize
    }
}

/// The frame for a heading of zero is the first one.
pub proof fn lemma_frame_index_of_zero()
    ensures
        frame_index(0) == 0,
{
}

/// Every angle has a frame, and the frame is one of the set.
pub proof fn lemma_frame_index_bounded(angle: int)
    ensures
        0 <= frame_index(angle) <= FRAME_COUNT - 1,
{
}

/// Over a sweep of non-negative angles the frame never steps backward.
pub proof fn lemma_frame_index_monotonic(a: int, b: int)
    requires
        0 <= a <= b,
    ensures
        frame_index(a) <= frame_index(b),
{
    lemma_div_is_ordered(a * 49, b * 49, 360_000);
}

/// Within one turn the frame is the one whose sector holds the angle: frame
/// `k` covers the angles from `k` to `k + 1` forty-ninths of a turn.
pub proof fn lemma_frame_index_sector(angle: int)
    requires
        0 <= angle < FULL_TURN,
    ensures
        frame_index(angle) * FULL_TURN <= angle * FRAME_COUNT < (frame_index(angle) + 1)
            * FULL_TURN,
{
    vstd::arithmetic::div_mod::lemma_fundamental_div_mod(angle * 49, 360_000);
}

} // verus!
