use lot_of_cars::sprite::car_sprite_from_rotation;
use lot_of_cars::sprite::FRAME_COUNT;
use lot_of_cars::sprite::FULL_TURN;

#[test]
fn frame_of_zero_is_the_first() {
    assert_eq!(car_sprite_from_rotation(0), 0);
}

#[test]
fn frame_changes_at_each_forty_ninth_of_a_turn() {
    assert_eq!(car_sprite_from_rotation(7_346), 0);
    assert_eq!(car_sprite_from_rotation(7_347), 1);
    assert_eq!(car_sprite_from_rotation(14_693), 1);
    assert_eq!(car_sprite_from_rotation(14_694), 2);
    assert_eq!(car_sprite_from_rotation(90_000), 12);
    assert_eq!(car_sprite_from_rotation(180_000), 24);
    assert_eq!(car_sprite_from_rotation(270_000), 36);
    assert_eq!(car_sprite_from_rotation(352_653), 47);
    assert_eq!(car_sprite_from_rotation(352_654), 48);
    assert_eq!(car_sprite_from_rotation(359_999), 48);
}

#[test]
fn negative_angles_are_measured_from_a_full_turn() {
    assert_eq!(car_sprite_from_rotation(-1), 48);
    assert_eq!(car_sprite_from_rotation(-90_000), 36);
    assert_eq!(car_sprite_from_rotation(-180_000), 24);
    assert_eq!(car_sprite_from_rotation(-359_999), 0);
    assert_eq!(car_sprite_from_rotation(-360_000), 0);
}

#[test]
fn frame_is_always_one_of_the_set() {
    let angles: Vec<i64> = vec![
        i64::MIN,
        i64::MIN + 1,
        -1_000_000_000,
        -360_001,
        -360_000,
        -1,
        0,
        1,
        359_999,
        360_000,
        360_001,
        720_000,
        1_000_000_000,
        i64::MAX - 1,
        i64::MAX,
    ];
    for angle in angles {
        assert!(car_sprite_from_rotation(angle) < FRAME_COUNT);
    }
}

#[test]
fn angles_beyond_a_turn_stay_on_the_last_frame() {
    assert_eq!(car_sprite_from_rotation(FULL_TURN), 48);
    assert_eq!(car_sprite_from_rotation(FULL_TURN + 1), 48);
    assert_eq!(car_sprite_from_rotation(i64::MAX), 48);
}

#[test]
fn angles_below_minus_a_turn_stay_on_the_first_frame() {
    assert_eq!(car_sprite_from_rotation(-FULL_TURN - 1), 0);
    assert_eq!(car_sprite_from_rotation(i64::MIN), 0);
}

#[test]
fn frame_never_steps_back_over_a_sweep() {
    let mut last = 0usize;
    let mut seen = vec![false; FRAME_COUNT];
    let mut angle: i64 = 0;
    while angle < FULL_TURN {
        let frame = car_sprite_from_rotation(angle);
        assert!(frame >= last);
        assert!(frame - last <= 1);
        seen[frame] = true;
        last = frame;
        angle += 100;
    }
    assert!(seen.iter().all(|hit| *hit));
}
