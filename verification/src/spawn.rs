//! The spawn scheduler: when a car is spawned, and along which path.
//!
//! A path runs from one edge of the viewport to the opposite edge. Where it
//! enters and leaves, how it bends and how long it takes are drawn at
//! random from the ranges of a spawn tier; everything that follows the
//! draw is a function of the sample that was drawn.

use vstd::prelude::*;
use rand::rngs::StdRng;
use rand::Rng;
use crate::geometry::IVec2;
use crate::trajectory::TIME_LIMIT;
use crate::world::Footprint;
use crate::world::SpawnPlan;
use crate::world::World;

verus! {

/// The seedable generator of the `rand` crate, whose state is not modelled.
#[verifier::external_type_specification]
#[verifier::external_body]
pub struct ExStdRng(StdRng);

/// Calls `Rng::gen_range` of the `rand` crate on the half-open range from
/// `low` to `high`. The call panics on an empty range, which the
/// precondition excludes; what it returns lies in the range.
#[verifier::external_body]
fn draw_between(rng: &mut StdRng, low: i64, high: i64) -> (value: i64)
    requires
        low < high,
    ensures
        low <= value < high,
{
    rng.gen_range(low..high)
}

/// Calls `Rng::gen_ratio` of the `rand` crate, which returns `true` with a
/// chance of `numerator` in `denominator`: always where the two are equal,
/// never where the numerator is zero. The call panics where the
/// denominator is zero or smaller than the numerator, which the
/// precondition excludes.
#[verifier::external_body]
fn draw_ratio(rng: &mut StdRng, numerator: u32, denominator: u32) -> (outcome: bool)
    requires
        0 < denominator,
        numerator <= denominator,
    ensures
        numerator == denominator ==> outcome,
        numerator == 0 ==> !outcome,
{
    rng.gen_ratio(numerator, denominator)
}

/// The visible part of the world: the corner with the smallest and the
/// corner with the largest coordinates.
#[derive(Clone, Copy, Debug, PartialEq, Eq, Structural)]
pub struct Viewport {
    pub min: IVec2,
    pub max: IVec2,
}

/// The ranges from which the cars of one tier are drawn. Times are in
/// microseconds; each range holds its lower bound and not its upper bound.
#[derive(Clone, Copy, Debug, PartialEq, Eq, Structural)]
pub struct SpawnConfig {
    pub interval: u64,
    pub offset_min: i32,
    pub offset_max: i32,
    pub duration_min: u64,
    pub duration_max: u64,
    pub lifetime_margin: u64,
    pub footprint: Footprint,
}

/// One draw of everything that is random about a spawn.
#[derive(Clone, Copy, Debug, PartialEq, Eq, Structural)]
pub struct SpawnSample {
    /// Whether the car travels from the bottom edge to the top edge rather
    /// than from the left edge to the right edge.
    pub vertical: bool,
    /// Where along the first edge the path begins.
    pub entry: i32,
    /// Where along the opposite edge the path ends.
    pub exit: i32,
    /// Whether the car travels the path from its end to its beginning.
    pub reversed: bool,
    pub offset1: i32,
    pub offset2: i32,
    pub duration: u64,
}

/// The timer that decides on which ticks a spawn is due.
#[derive(Clone, Copy, Debug, PartialEq, Eq, Structural)]
pub struct SpawnTimer {
    pub interval: u64,
    pub waited: u64,
}

impl Viewport {
    /// Whether the viewport has an extent along both axes.
    pub open spec fn is_open(self) -> bool {
        self.min.x < self.max.x && self.min.y < self.max.y
    }

    /// Tells whether the viewport has an extent along both axes.
    pub fn has_area(&self) -> (open: bool)
        ensures
            open == self.is_open(),
    {
        self.min.x < self.max.x && self.min.y < self.max.y
    }
}

impl SpawnConfig {
    /// No range is empty, the interval is positive, and the longest life of
    /// a car of the tier, its duration and the margin, is a time that a
    /// trajectory can hold.
    pub open spec fn wf(self) -> bool {
        &&& 0 < self.interval
        &&& self.offset_min < self.offset_max
        &&& 0 < self.duration_min < self.duration_max
        &&& self.duration_max + self.lifetime_margin <= TIME_LIMIT
    }

    /// Tells whether the tier is well formed.
    pub fn is_valid(&self) -> (valid: bool)
        ensures
            valid == self.wf(),
    {
        0 < self.interval && self.offset_min < self.offset_max && 0 < self.duration_min
            && self.duration_min < self.duration_max && self.duration_max <= TIME_LIMIT
            && self.lifetime_margin <= TIME_LIMIT - self.duration_max
    }

    /// The tier of small, fast cars: a spawn every half second, two to four
    /// seconds to cross, and a tenth of a second to live beyond that.
    pub fn fast() -> (config: SpawnConfig)
        ensures
            config.wf(),
            config.interval == 500_000,
            config.offset_min == -1000,
            config.offset_max == 1000,
            config.duration_min == 2_000_000,
            config.duration_max == 4_000_000,
            config.lifetime_margin == 100_000,
            config.footprint == (Footprint { width: 20, height: 10 }),
    {
        SpawnConfig {
            interval: 500_000,
            offset_min: -1000,
            offset_max: 1000,
            duration_min: 2_000_000,
            duration_max: 4_000_000,
            lifetime_margin: 100_000,
            footprint: Footprint { width: 20, height: 10 },
        }
    }

    /// The tier of large, slow cars: a spawn every three seconds, twelve and
    /// a half to fourteen and a half seconds to cross.
    pub fn slow() -> (config: SpawnConfig)
        ensures
            config.wf(),
            config.interval == 3_000_000,
            config.offset_min == -1000,
            config.offset_max == 1000,
            config.duration_min == 12_500_000,
            config.duration_max == 14_500_000,
            config.lifetime_margin == 100_000,
            config.footprint == (Footprint { width: 32, height: 32 }),
    {
        SpawnConfig {
            interval: 3_000_000,
            offset_min: -1000,
            offset_max: 1000,
            duration_min: 12_500_000,
            duration_max: 14_500_000,
            lifetime_margin: 100_000,
            footprint: Footprint { width: 32, height: 32 },
        }
    }
}

impl SpawnSample {
    /// Whether the sample lies within the viewport and the ranges of the tier.
    pub open spec fn fits(self, viewport: Viewport, config: SpawnConfig) -> bool {
        &&& self.vertical ==> viewport.min.x <= self.entry < viewport.max.x && viewport.min.x
            <= self.exit < viewport.max.x
        &&& !self.vertical ==> viewport.min.y <= self.entry < viewport.max.y && viewport.min.y
            <= self.exit < viewport.max.y
        &&& config.offset_min <= self.offset1 < config.offset_max
        &&& config.offset_min <= self.offset2 < config.offset_max
        &&& config.duration_min <= self.duration < config.duration_max
    }

    /// Tells whether the sample lies within the viewport and the ranges of the tier.
    pub fn is_within(&self, viewport: &Viewport, config: &SpawnConfig) -> (within: bool)
        ensures
            within == self.fits(*viewport, *config),
    {
        let along: bool = if self.vertical {
            viewport.min.x <= self.entry && self.entry < viewport.max.x && viewport.min.x
                <= self.exit && self.exit < viewport.max.x
        } else {
            viewport.min.y <= self.entry && self.entry < viewport.max.y && viewport.min.y
                <= self.exit && self.exit < viewport.max.y
        };
        along && config.offset_min <= self.offset1 && self.offset1 < config.offset_max
            && config.offset_min <= self.offset2 && self.offset2 < config.offset_max
            && config.duration_min <= self.duration && self.duration < config.duration_max
    }
}

/// The point on the first edge at which the sampled path begins: on the
/// bottom edge for vertical travel, on the left edge otherwise.
pub open spec fn entry_point(viewport: Viewport, sample: SpawnSample) -> IVec2 {
    if sample.vertical {
        IVec2 { x: sample.entry, y: viewport.min.y }
    } else {
        IVec2 { x: viewport.min.x, y: sample.entry }
    }
}

/// The point on the opposite edge at which the sampled path ends.
pub open spec fn exit_point(viewport: Viewport, sample: SpawnSample) -> IVec2 {
    if sample.vertical {
        IVec2 { x: sample.exit, y: viewport.max.y }
    } else {
        IVec2 { x: viewport.max.x, y: sample.exit }
    }
}

/// The car that a sample stands for: it runs between the two sampled edge
/// points, in the sampled direction, and lives for its duration and the
/// margin of the tier.
pub open spec fn plan_for(viewport: Viewport, config: SpawnConfig, sample: SpawnSample) -> SpawnPlan {
    SpawnPlan {
        start: if sample.reversed {
            exit_point(viewport, sample)
        } else {
            entry_point(viewport, sample)
        },
        end: if sample.reversed {
            entry_point(viewport, sample)
        } else {
            exit_point(viewport, sample)
        },
        offset1: sample.offset1,
        offset2: sample.offset2,
        duration: sample.duration,
        lifetime: (sample.duration + config.lifetime_margin) as u64,
        footprint: config.footprint,
    }
}

/// Turns a sample into the plan of a car.
pub fn plan_spawn(viewport: &Viewport, config: &SpawnConfig, sample: &SpawnSample) -> (plan:
    SpawnPlan)
    requires
        config.wf(),
        sample.fits(*viewport, *config),
    ensures
        plan == plan_for(*viewport, *config, *sample),
        plan.wf(),
        plan.lifetime <= TIME_LIMIT,
{
    let entry: IVec2 = if sample.vertical {
        IVec2 { x: sample.entry, y: viewport.min.y }
    } else {
        IVec2 { x: viewport.min.x, y: sample.entry }
    };
    let exit: IVec2 = if sample.vertical {
        IVec2 { x: sample.exit, y: viewport.max.y }
    } else {
        IVec2 { x: viewport.max.x, y: sample.exit }
    };
    let (start, end) = if sample.reversed {
        (exit, entry)
    } else {
        (entry, exit)
    };
    SpawnPlan {
        start,
        end,
        offset1: sample.offset1,
        offset2: sample.offset2,
        duration: sample.duration,
        lifetime: sample.duration + config.lifetime_margin,
        footprint: config.footprint,
    }
}

/// Draws a sample for a spawn: the axis of travel, the entry and the exit
/// along the edges, the direction, the two control offsets and the duration.
/// Whatever is drawn lies within the viewport and the ranges of the tier.
pub fn draw_sample(viewport: &Viewport, config: &SpawnConfig, rng: &mut StdRng) -> (sample:
    SpawnSample)
    requires
        viewport.is_open(),
        config.wf(),
    ensures
        sample.fits(*viewport, *config),
{
    let vertical: bool = draw_ratio(rng, 1, 2);
    let low: i64 = if vertical {
        viewport.min.x as i64
    } else {
        viewport.min.y as i64
    };
    let high: i64 = if vertical {
        viewport.max.x as i64
    } else {
        viewport.max.y as i64
    };
    let entry: i64 = draw_between(rng, low, high);
    let exit: i64 = draw_between(rng, low, high);
    let reversed: bool = draw_ratio(rng, 1, 2);
    let offset1: i64 = draw_between(rng, config.offset_min as i64, config.offset_max as i64);
    let offset2: i64 = draw_between(rng, config.offset_min as i64, config.offset_max as i64);
    let duration: i64 = draw_between(rng, config.duration_min as i64, config.duration_max as i64);
    SpawnSample {
        vertical,
        entry: entry as i32,
        exit: exit as i32,
        reversed,
        offset1: offset1 as i32,
        offset2: offset2 as i32,
        duration: duration as u64,
    }
}

impl SpawnTimer {
    /// The interval is positive and the time waited is less than it.
    pub open spec fn wf(self) -> bool {
        0 < self.interval && self.waited < self.interval
    }

    /// Whether a step of `dt` microseconds completes an interval.
    pub open spec fn fires_within(self, dt: u64) -> bool {
        self.waited + dt >= self.interval
    }

    /// The timer after a step of `dt` microseconds: completed intervals are
    /// dropped from the time waited.
    pub open spec fn ticked(self, dt: u64) -> SpawnTimer {
        SpawnTimer {
            interval: self.interval,
            waited: ((self.waited + dt) % (self.interval as int)) as u64,
        }
    }

    /// A timer that fires every `interval` microseconds, starting now.
    pub fn new(interval: u64) -> (timer: SpawnTimer)
        requires
            interval > 0,
        ensures
            timer == (SpawnTimer { interval, waited: 0 }),
            timer.wf(),
    {
        SpawnTimer { interval, waited: 0 }
    }

    /// Lets `dt` microseconds pass and tells whether a spawn is due. However
    /// long the step, it is due once at most.
    pub fn tick(&mut self, dt: u64) -> (fired: bool)
        requires
            old(self).wf(),
        ensures
            *final(self) == old(self).ticked(dt),
            fired == old(self).fires_within(dt),
            final(self).wf(),
    {
        let total: u128 = self.waited as u128 + dt as u128;
        let fired: bool = total >= self.interval as u128;
        self.waited = (total % (self.interval as u128)) as u64;
        fired
    }
}

impl World {
    /// Spawns the car that `sample` stands for, unless no identifier is left.
    pub fn spawn_sampled(
        &mut self,
        viewport: &Viewport,
        config: &SpawnConfig,
        sample: &SpawnSample,
    ) -> (id: Option<u64>)
        requires
            old(self)@.wf(),
            config.wf(),
            sample.fits(*viewport, *config),
        ensures
            final(self)@ == old(self)@.after_spawn(plan_for(*viewport, *config, *sample)),
            final(self)@.wf(),
            id == if old(self)@.next_id < u64::MAX {
                Some(old(self)@.next_id)
            } else {
                None
            },
    {
        let plan: SpawnPlan = plan_spawn(viewport, config, sample);
        self.spawn_car(plan)
    }

    /// Runs one spawn cycle: draws a random path across the viewport and
    /// spawns a car on it. Without a viewport, or with one that has no
    /// area, the cycle is skipped and the world stays as it is.
    pub fn spawn_cars(
        &mut self,
        viewport: Option<Viewport>,
        config: &SpawnConfig,
        rng: &mut StdRng,
    ) -> (id: Option<u64>)
        requires
            old(self)@.wf(),
            config.wf(),
        ensures
            final(self)@.wf(),
            viewport.is_none() || !viewport.unwrap().is_open() ==> final(self)@ == old(self)@
                && id.is_none(),
            viewport.is_some() && viewport.unwrap().is_open() ==> exists|sample: SpawnSample|
                #![trigger plan_for(viewport.unwrap(), *config, sample)]
                sample.fits(viewport.unwrap(), *config) && final(self)@ == old(self)@.after_spawn(
                    plan_for(viewport.unwrap(), *config, sample),
                ),
            viewport.is_some() && viewport.unwrap().is_open() ==> id == if old(self)@.next_id
                < u64::MAX {
                Some(old(self)@.next_id)
            } else {
                None
            },
    {
        match viewport {
            Some(area) => {
                if area.has_area() {
                    let sample: SpawnSample = draw_sample(&area, config, rng);
                    self.spawn_sampled(&area, config, &sample)
                } else {
                    None
                }
            },
            None => None,
        }
    }

    /// Runs the spawn scheduler for a tick of `dt` microseconds: the timer
    /// moves on, and a spawn cycle runs if the timer says that one is due.
    /// On every other tick the world stays as it is.
    pub fn spawn_on_timer(
        &mut self,
        timer: &mut SpawnTimer,
        viewport: Option<Viewport>,
        config: &SpawnConfig,
        rng: &mut StdRng,
        dt: u64,
    ) -> (id: Option<u64>)
        requires
            old(self)@.wf(),
            old(timer).wf(),
            config.wf(),
        ensures
            final(self)@.wf(),
            final(timer).wf(),
            *final(timer) == old(timer).ticked(dt),
            !old(timer).fires_within(dt) || viewport.is_none() || !viewport.unwrap().is_open()
                ==> final(self)@ == old(self)@ && id.is_none(),
            old(timer).fires_within(dt) && viewport.is_some() && viewport.unwrap().is_open()
                ==> exists|sample: SpawnSample|
                #![trigger plan_for(viewport.unwrap(), *config, sample)]
                sample.fits(viewport.unwrap(), *config) && final(self)@ == old(self)@.after_spawn(
                    plan_for(viewport.unwrap(), *config, sample),
                ),
            old(timer).fires_within(dt) && viewport.is_some() && viewport.unwrap().is_open() ==> id
                == if old(self)@.next_id < u64::MAX {
                Some(old(self)@.next_id)
            } else {
                None
            },
    {
        if timer.tick(dt) {
            self.spawn_cars(viewport, config, rng)
        } else {
            None
        }
    }
}

} // verus!
