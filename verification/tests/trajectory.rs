use lot_of_cars::curve::Curve;
use lot_of_cars::curve::Tangent;
use lot_of_cars::geometry::IVec2;
use lot_of_cars::trajectory::Trajectory;
use lot_of_cars::trajectory::TIME_LIMIT;

#[test]
fn new_trajectory_starts_at_zero() {
    let start = IVec2::new(-640, -360);
    let end = IVec2::new(500, 360);
    let t = Trajectory::new(start, end, 1000, -1000, 3_000_000);
    assert_eq!(t.elapsed, 0);
    assert_eq!(t.duration, 3_000_000);
    assert_eq!(t.curve, Curve::new(start, end, 1000, -1000));
    assert_eq!(t.pos(), start);
}

#[test]
fn advance_adds_the_step() {
    let mut t = Trajectory::new(IVec2::new(0, 0), IVec2::new(100, 0), 0, 0, 2_000_000);
    t.advance(16_667);
    assert_eq!(t.elapsed, 16_667);
    t.advance(16_667);
    assert_eq!(t.elapsed, 33_334);
    assert_eq!(t.duration, 2_000_000);
}

#[test]
fn advance_by_zero_changes_nothing() {
    let mut t = Trajectory::new(IVec2::new(3, 4), IVec2::new(100, -50), 10, 20, 2_000_000);
    t.advance(700_000);
    let before = t;
    t.advance(0);
    assert_eq!(t, before);
}

#[test]
fn advance_is_strictly_monotonic() {
    let mut t = Trajectory::new(IVec2::new(0, 0), IVec2::new(100, 0), 0, 0, 2_000_000);
    let mut last = t.elapsed;
    for dt in [1u64, 2, 1000, 16_667, 1_000_000, 5_000_000] {
        t.advance(dt);
        assert!(t.elapsed > last);
        last = t.elapsed;
    }
}

#[test]
fn progress_may_pass_one() {
    let mut t = Trajectory::new(IVec2::new(0, 0), IVec2::new(100, 0), 0, 0, 2_000_000);
    t.advance(3_000_000);
    assert_eq!(t.elapsed, 3_000_000);
    assert_eq!(t.pos(), IVec2::new(150, 0));
}

#[test]
fn elapsed_time_stops_at_the_limit() {
    let mut t = Trajectory::new(IVec2::new(0, 0), IVec2::new(100, 0), 0, 0, 2_000_000);
    t.advance(TIME_LIMIT - 1);
    assert_eq!(t.elapsed, TIME_LIMIT - 1);
    t.advance(1);
    assert_eq!(t.elapsed, TIME_LIMIT);
    t.advance(1);
    assert_eq!(t.elapsed, TIME_LIMIT);
    t.advance(u64::MAX);
    assert_eq!(t.elapsed, TIME_LIMIT);
}

#[test]
fn huge_step_saturates_at_once() {
    let mut t = Trajectory::new(IVec2::new(0, 0), IVec2::new(100, 0), 0, 0, TIME_LIMIT);
    t.advance(u64::MAX);
    assert_eq!(t.elapsed, TIME_LIMIT);
    assert_eq!(t.pos(), IVec2::new(100, 0));
}

#[test]
fn position_follows_the_progress() {
    let mut t = Trajectory::new(IVec2::new(0, 0), IVec2::new(300, 0), 100, -100, 4_000_000);
    t.advance(1_000_000);
    assert_eq!(t.pos(), IVec2::new(75, 28));
    assert_eq!(t.vel(), Tangent { x: 300, y: -38 });
    t.advance(1_000_000);
    assert_eq!(t.pos(), IVec2::new(150, 0));
    assert_eq!(t.vel(), Tangent { x: 300, y: -150 });
    t.advance(2_000_000);
    assert_eq!(t.pos(), IVec2::new(300, 0));
}

#[test]
fn trajectory_at_rest_has_no_tangent() {
    let mut t = Trajectory::new(IVec2::new(9, 9), IVec2::new(9, 9), 500, 500, 2_000_000);
    t.advance(1_000_000);
    assert_eq!(t.pos(), IVec2::new(9, 9));
    assert_eq!(t.vel(), Tangent { x: 0, y: 0 });
}

#[test]
fn shortest_duration_is_one_microsecond() {
    let mut t = Trajectory::new(IVec2::new(0, 0), IVec2::new(10, 0), 0, 0, 1);
    assert_eq!(t.pos(), IVec2::new(0, 0));
    t.advance(1);
    assert_eq!(t.pos(), IVec2::new(10, 0));
}
