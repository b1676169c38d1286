use lot_of_cars::curve::Curve;
use lot_of_cars::curve::Tangent;
use lot_of_cars::geometry::IVec2;
use lot_of_cars::lifetime::Lifetime;
use lot_of_cars::player::Intent;
use lot_of_cars::player::Player;
use lot_of_cars::trajectory::Trajectory;
use lot_of_cars::trajectory::TIME_LIMIT;
use lot_of_cars::world::Car;
use lot_of_cars::world::Contact;
use lot_of_cars::world::ContactRules;
use lot_of_cars::world::Footprint;
use lot_of_cars::world::SpawnPlan;
use lot_of_cars::world::World;
use lot_of_cars::world::NO_ENTITY;

const KEEP_CAR: ContactRules = ContactRules { destroy_car_on_player_contact: false };
const DESTROY_CAR: ContactRules = ContactRules { destroy_car_on_player_contact: true };

fn plan(start: (i32, i32), end: (i32, i32), duration: u64) -> SpawnPlan {
    SpawnPlan {
        start: IVec2::new(start.0, start.1),
        end: IVec2::new(end.0, end.1),
        offset1: 0,
        offset2: 0,
        duration,
        lifetime: duration + 100_000,
        footprint: Footprint { width: 20, height: 10 },
    }
}

fn ids(world: &World) -> Vec<u64> {
    world.cars.iter().map(|car| car.id).collect()
}

fn contact(first: u64, second: u64) -> Contact {
    Contact { first, second }
}

/// A world with the player under identifier 0 and three cars under 1, 2 and 3.
fn busy_world() -> World {
    let mut world = World::new();
    assert_eq!(world.setup_player(), Some(0));
    assert_eq!(world.spawn_car(plan((0, 0), (100, 0), 2_000_000)), Some(1));
    assert_eq!(world.spawn_car(plan((0, 50), (100, 50), 3_000_000)), Some(2));
    assert_eq!(world.spawn_car(plan((0, 90), (100, 90), 4_000_000)), Some(3));
    world
}

#[test]
fn new_world_is_empty() {
    let world = World::new();
    assert!(world.cars.is_empty());
    assert!(world.player.is_none());
    assert_eq!(world.next_id, 0);
    assert!(!world.contains_car(0));
    assert!(world.car(0).is_none());
}

#[test]
fn setup_player_happens_once() {
    let mut world = World::new();
    assert_eq!(world.setup_player(), Some(0));
    assert_eq!(world.player, Some(Player::new(0)));
    assert_eq!(world.next_id, 1);
    assert_eq!(world.setup_player(), Some(0));
    assert_eq!(world.next_id, 1);
}

#[test]
fn spawned_car_stands_on_its_start() {
    let mut world = World::new();
    let spawn = SpawnPlan {
        start: IVec2::new(-640, -360),
        end: IVec2::new(500, 360),
        offset1: 1000,
        offset2: -1000,
        duration: 3_000_000,
        lifetime: 3_100_000,
        footprint: Footprint { width: 32, height: 32 },
    };
    assert_eq!(world.spawn_car(spawn), Some(0));
    assert_eq!(world.next_id, 1);
    let expected = Car {
        id: 0,
        trajectory: Trajectory {
            curve: Curve::new(spawn.start, spawn.end, 1000, -1000),
            elapsed: 0,
            duration: 3_000_000,
        },
        lifetime: Lifetime::new(3_100_000),
        position: IVec2::new(-640, -360),
        heading: Tangent { x: 0, y: 0 },
        footprint: Footprint { width: 32, height: 32 },
    };
    assert_eq!(world.cars, vec![expected]);
    assert_eq!(world.car(0), Some(expected));
    assert!(world.contains_car(0));
    assert!(!world.contains_car(1));
}

#[test]
fn identifiers_are_handed_out_in_order() {
    let world = busy_world();
    assert_eq!(ids(&world), vec![1, 2, 3]);
    assert_eq!(world.next_id, 4);
    assert_eq!(world.player.unwrap().id, 0);
}

#[test]
fn spawn_is_skipped_when_identifiers_run_out() {
    let mut world = busy_world();
    world.next_id = u64::MAX;
    assert_eq!(world.spawn_car(plan((0, 0), (1, 1), 1)), None);
    assert_eq!(ids(&world), vec![1, 2, 3]);
    assert_eq!(world.next_id, u64::MAX);
    let mut empty = World::new();
    empty.next_id = u64::MAX;
    assert_eq!(empty.setup_player(), None);
    assert!(empty.player.is_none());
}

#[test]
fn motion_moves_every_car() {
    let mut world = busy_world();
    world.handle_trajectory(1_000_000);
    let cars = &world.cars;
    assert_eq!(cars[0].trajectory.elapsed, 1_000_000);
    assert_eq!(cars[0].position, IVec2::new(50, 0));
    assert_eq!(cars[0].heading, Tangent { x: 100, y: 0 });
    assert_eq!(cars[1].position, IVec2::new(33, 50));
    assert_eq!(cars[2].position, IVec2::new(25, 90));
    assert_eq!(ids(&world), vec![1, 2, 3]);
    assert_eq!(world.player, Some(Player::new(0)));
    assert_eq!(cars[0].lifetime, Lifetime::new(2_100_000));
}

#[test]
fn motion_in_an_empty_world() {
    let mut world = World::new();
    world.handle_trajectory(1_000_000);
    assert!(world.cars.is_empty());
}

#[test]
fn car_car_contact_destroys_both() {
    let mut world = busy_world();
    let events = vec![contact(1, 3)];
    assert_eq!(world.car_car_contact(&events), vec![1, 3]);
    assert!(!world.resolve_contacts(&events, KEEP_CAR));
    assert_eq!(ids(&world), vec![2]);
    assert!(!world.contains_car(1));
    assert!(!world.contains_car(3));
    assert!(world.contains_car(2));
    assert_eq!(world.player, Some(Player::new(0)));
    assert_eq!(world.next_id, 4);
}

#[test]
fn car_car_contact_in_either_order() {
    let mut world = busy_world();
    assert_eq!(world.car_car_contact(&vec![contact(3, 2)]), vec![2, 3]);
    world.resolve_contacts(&vec![contact(3, 2)], KEEP_CAR);
    assert_eq!(ids(&world), vec![1]);
}

#[test]
fn deciding_does_not_change_the_world() {
    let world = busy_world();
    let events = vec![contact(1, 2), contact(0, 3)];
    assert_eq!(world.car_car_contact(&events), vec![1, 2]);
    assert!(world.car_player_contact(&events));
    assert_eq!(ids(&world), vec![1, 2, 3]);
    assert_eq!(world.player, Some(Player::new(0)));
}

#[test]
fn chain_of_contacts_destroys_all_three() {
    let mut world = busy_world();
    let events = vec![contact(1, 2), contact(2, 3)];
    assert_eq!(world.car_car_contact(&events), vec![1, 2, 3]);
    assert!(!world.resolve_contacts(&events, KEEP_CAR));
    assert!(world.cars.is_empty());
    assert_eq!(world.player, Some(Player::new(0)));
}

#[test]
fn order_of_contacts_does_not_matter() {
    let mut forward = busy_world();
    forward.spawn_car(plan((0, 0), (5, 5), 1_000_000));
    let mut backward = busy_world();
    backward.spawn_car(plan((0, 0), (5, 5), 1_000_000));
    forward.resolve_contacts(&vec![contact(1, 2), contact(2, 3)], KEEP_CAR);
    backward.resolve_contacts(&vec![contact(2, 3), contact(1, 2)], KEEP_CAR);
    assert_eq!(ids(&forward), vec![4]);
    assert_eq!(forward.cars, backward.cars);
    assert_eq!(forward.player, backward.player);
}

#[test]
fn duplicate_contact_is_a_no_op() {
    let mut world = busy_world();
    let events = vec![contact(1, 3), contact(1, 3), contact(3, 1)];
    assert_eq!(world.car_car_contact(&events), vec![1, 3]);
    world.resolve_contacts(&events, KEEP_CAR);
    assert_eq!(ids(&world), vec![2]);
}

#[test]
fn duplicate_contact_in_a_later_tick_is_a_no_op() {
    let mut world = busy_world();
    world.resolve_contacts(&vec![contact(1, 3)], KEEP_CAR);
    assert_eq!(world.car_car_contact(&vec![contact(1, 3)]), Vec::<u64>::new());
    assert!(!world.resolve_contacts(&vec![contact(1, 3)], KEEP_CAR));
    assert!(!world.resolve_contacts(&vec![contact(3, 1)], DESTROY_CAR));
    assert_eq!(ids(&world), vec![2]);
    assert_eq!(world.player, Some(Player::new(0)));
}

#[test]
fn contact_with_a_car_destroyed_in_an_earlier_tick_spares_the_other() {
    let mut world = busy_world();
    world.resolve_contacts(&vec![contact(1, 3)], KEEP_CAR);
    assert!(!world.joins_two_cars(contact(1, 2)));
    world.resolve_contacts(&vec![contact(1, 2)], KEEP_CAR);
    assert_eq!(ids(&world), vec![2]);
}

#[test]
fn contact_with_an_unknown_identifier_is_ignored() {
    let mut world = busy_world();
    let events = vec![contact(1, 99), contact(99, 98), contact(0, 99), contact(99, 1)];
    assert_eq!(world.car_car_contact(&events), Vec::<u64>::new());
    assert!(!world.car_player_contact(&events));
    assert!(!world.resolve_contacts(&events, DESTROY_CAR));
    assert_eq!(ids(&world), vec![1, 2, 3]);
    assert_eq!(world.player, Some(Player::new(0)));
}

#[test]
fn car_touching_itself_is_destroyed() {
    let mut world = busy_world();
    world.resolve_contacts(&vec![contact(2, 2)], KEEP_CAR);
    assert_eq!(ids(&world), vec![1, 3]);
}

#[test]
fn car_car_rule_ignores_the_player() {
    let world = busy_world();
    assert!(!world.joins_two_cars(contact(0, 1)));
    assert!(!world.joins_two_cars(contact(0, 0)));
    assert!(world.joins_two_cars(contact(3, 1)));
    assert_eq!(world.car_car_contact(&vec![contact(0, 1), contact(0, 0)]), Vec::<u64>::new());
}

#[test]
fn car_player_contact_resets_the_player() {
    let mut world = busy_world();
    world.player = Some(Player { id: 0, position: IVec2::new(321, -123), velocity: IVec2::new(7, 9) });
    let events = vec![contact(0, 2)];
    assert!(world.car_player_contact(&events));
    assert!(world.resolve_contacts(&events, KEEP_CAR));
    let player = world.player.unwrap();
    assert_eq!(player.position, IVec2::new(0, 0));
    assert_eq!(player.velocity, IVec2::new(7, 9));
    assert_eq!(player.id, 0);
    assert_eq!(ids(&world), vec![1, 2, 3]);
}

#[test]
fn car_player_contact_in_either_order() {
    let mut world = busy_world();
    world.player = Some(Player { id: 0, position: IVec2::new(i32::MAX, i32::MIN), velocity: IVec2::new(0, 0) });
    assert!(world.joins_player_with_car(contact(3, 0)));
    assert!(world.joins_player_with_car(contact(0, 3)));
    assert!(world.resolve_contacts(&vec![contact(3, 0)], KEEP_CAR));
    assert_eq!(world.player.unwrap().position, IVec2::new(0, 0));
}

#[test]
fn car_player_contact_may_destroy_the_car() {
    let mut world = busy_world();
    world.player = Some(Player { id: 0, position: IVec2::new(5, 5), velocity: IVec2::new(1, 1) });
    assert!(world.resolve_contacts(&vec![contact(2, 0)], DESTROY_CAR));
    assert_eq!(world.player.unwrap().position, IVec2::new(0, 0));
    assert_eq!(ids(&world), vec![1, 3]);
    assert!(!world.resolve_contacts(&vec![contact(2, 0)], DESTROY_CAR));
}

#[test]
fn car_player_rule_ignores_other_pairs() {
    let mut world = busy_world();
    let moved = Player { id: 0, position: IVec2::new(5, 5), velocity: IVec2::new(1, 1) };
    world.player = Some(moved);
    assert!(!world.joins_player_with_car(contact(1, 2)));
    assert!(!world.joins_player_with_car(contact(0, 0)));
    assert!(!world.car_player_contact(&vec![contact(1, 2), contact(0, 0)]));
    assert!(!world.resolve_contacts(&vec![contact(0, 0)], DESTROY_CAR));
    assert_eq!(world.player, Some(moved));
    assert_eq!(ids(&world), vec![1, 2, 3]);
}

#[test]
fn car_player_rule_without_a_player() {
    let mut world = World::new();
    world.spawn_car(plan((0, 0), (100, 0), 2_000_000));
    assert!(!world.car_player_contact(&vec![contact(0, 0), contact(0, 1)]));
    assert!(!world.resolve_contacts(&vec![contact(0, 1), contact(1, 0)], DESTROY_CAR));
    assert_eq!(ids(&world), vec![0]);
}

#[test]
fn contacts_of_one_tick_are_judged_against_the_world_before_them() {
    let mut world = busy_world();
    world.player = Some(Player { id: 0, position: IVec2::new(9, 9), velocity: IVec2::new(0, 0) });
    assert!(world.resolve_contacts(&vec![contact(1, 2), contact(0, 1), contact(2, 1)], KEEP_CAR));
    assert_eq!(ids(&world), vec![3]);
    assert_eq!(world.player.unwrap().position, IVec2::new(0, 0));

    let mut world = busy_world();
    world.player = Some(Player { id: 0, position: IVec2::new(9, 9), velocity: IVec2::new(0, 0) });
    assert!(world.resolve_contacts(&vec![contact(0, 1), contact(1, 2)], KEEP_CAR));
    assert_eq!(ids(&world), vec![3]);
    assert_eq!(world.player.unwrap().position, IVec2::new(0, 0));
}

#[test]
fn player_contact_alone_spares_the_car_by_default() {
    let mut world = busy_world();
    assert!(world.resolve_contacts(&vec![contact(0, 1), contact(2, 3)], KEEP_CAR));
    assert_eq!(ids(&world), vec![1]);
}

#[test]
fn contacts_of_one_tick_with_destroying_rules() {
    let mut world = busy_world();
    world.player = Some(Player { id: 0, position: IVec2::new(9, 9), velocity: IVec2::new(0, 0) });
    let events = vec![contact(7, 8), contact(2, 0), contact(3, 1), contact(3, 1)];
    assert_eq!(world.car_car_contact(&events), vec![1, 3]);
    assert!(world.resolve_contacts(&events, DESTROY_CAR));
    assert!(world.cars.is_empty());
    assert_eq!(world.player.unwrap().position, IVec2::new(0, 0));
}

#[test]
fn no_contacts_change_nothing() {
    let mut world = busy_world();
    assert!(!world.resolve_contacts(&Vec::new(), DESTROY_CAR));
    assert_eq!(world.car_car_contact(&Vec::new()), Vec::<u64>::new());
    assert_eq!(ids(&world), vec![1, 2, 3]);
    assert_eq!(world.player, Some(Player::new(0)));
}

#[test]
fn lifetimes_remove_expired_cars() {
    let mut world = busy_world();
    assert_eq!(world.tick_lifetimes(2_000_000), Vec::<u64>::new());
    assert_eq!(ids(&world), vec![1, 2, 3]);
    assert_eq!(world.cars[0].lifetime.remaining, 100_000);
    assert_eq!(world.cars[1].lifetime.remaining, 1_100_000);
    assert_eq!(world.tick_lifetimes(50_000), Vec::<u64>::new());
    assert_eq!(world.tick_lifetimes(50_000), vec![1]);
    assert_eq!(ids(&world), vec![2, 3]);
    assert_eq!(world.tick_lifetimes(5_000_000), vec![2, 3]);
    assert!(world.cars.is_empty());
    assert_eq!(world.player, Some(Player::new(0)));
}

#[test]
fn lifetimes_of_an_empty_step() {
    let mut world = busy_world();
    assert_eq!(world.tick_lifetimes(0), Vec::<u64>::new());
    assert_eq!(world.cars[2].lifetime.remaining, 4_100_000);
}

#[test]
fn player_movement_in_the_world() {
    let mut world = busy_world();
    let right = Intent { up: false, right: true, down: false, left: false };
    world.movement(right, 1_000_000);
    assert_eq!(world.player.unwrap().velocity, IVec2::new(819, 0));
    assert_eq!(ids(&world), vec![1, 2, 3]);
    let mut empty = World::new();
    empty.movement(right, 1_000_000);
    assert!(empty.player.is_none());
}

#[test]
fn one_second_of_a_two_second_trip() {
    let mut world = World::new();
    let id = world.spawn_car(plan((0, 0), (100, 0), 2_000_000)).unwrap();
    let step: u64 = 15_625;
    for _ in 0..64 {
        world.handle_trajectory(step);
        assert_eq!(world.tick_lifetimes(step), Vec::<u64>::new());
    }
    let car = world.car(id).unwrap();
    assert_eq!(car.trajectory.elapsed, 1_000_000);
    assert_eq!(car.position, IVec2::new(50, 0));
    assert_eq!(car.lifetime.remaining, 1_100_000);
}

#[test]
fn car_is_removed_shortly_after_its_trip() {
    let mut world = World::new();
    let id = world.spawn_car(plan((0, 0), (100, 0), 2_000_000)).unwrap();
    let step: u64 = 50_000;
    let mut ticks = 0;
    loop {
        world.handle_trajectory(step);
        let removed = world.tick_lifetimes(step);
        ticks += 1;
        if !removed.is_empty() {
            assert_eq!(removed, vec![id]);
            break;
        }
        let car = world.car(id).unwrap();
        assert!(car.trajectory.elapsed + car.lifetime.remaining >= car.trajectory.duration);
    }
    assert_eq!(ticks, 42);
    assert!(world.cars.is_empty());
}

#[test]
fn contact_with_no_entity_is_ignored() {
    let mut world = busy_world();
    let events = vec![contact(NO_ENTITY, 1), contact(0, NO_ENTITY), contact(NO_ENTITY, NO_ENTITY)];
    assert!(!world.resolve_contacts(&events, DESTROY_CAR));
    assert_eq!(ids(&world), vec![1, 2, 3]);
    assert_eq!(world.player, Some(Player::new(0)));
    assert!(!world.contains_car(NO_ENTITY));
}

#[test]
fn plan_validity_can_be_tested() {
    let good = plan((0, 0), (100, 0), 2_000_000);
    assert!(good.is_valid());
    assert!(!SpawnPlan { duration: 0, ..good }.is_valid());
    assert!(!SpawnPlan { duration: TIME_LIMIT + 1, lifetime: u64::MAX, ..good }.is_valid());
    assert!(!SpawnPlan { lifetime: 1_999_999, ..good }.is_valid());
    assert!(SpawnPlan { duration: TIME_LIMIT, lifetime: TIME_LIMIT, ..good }.is_valid());
}

#[test]
fn living_car_keeps_moving_until_it_expires() {
    let mut world = World::new();
    let long = SpawnPlan {
        start: IVec2::new(0, 0),
        end: IVec2::new(1000, 0),
        offset1: 0,
        offset2: 0,
        duration: TIME_LIMIT - 100_000,
        lifetime: TIME_LIMIT,
        footprint: Footprint { width: 20, height: 10 },
    };
    let id = world.spawn_car(long).unwrap();
    let step: u64 = 10_000_000;
    let mut last = 0;
    loop {
        world.handle_trajectory(step);
        let moved = world.car(id).unwrap().trajectory.elapsed;
        assert!(moved > last);
        last = moved;
        if !world.tick_lifetimes(step).is_empty() {
            break;
        }
    }
    assert_eq!(last, TIME_LIMIT);
    assert!(world.cars.is_empty());
}
