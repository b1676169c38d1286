//! The entity registry and the systems that run over it every tick.
//!
//! The systems are meant to run once per tick, in this order: cars are
//! spawned, every trajectory is advanced, the contacts that the collision
//! detector found on the positions just written are resolved, and cars
//! whose lifetime has run out are removed. A car carries its collision
//! shape itself, so a contact names cars and the player by their entity
//! identifiers.
//!
//! The contacts of one tick arose together, from the world as it stood
//! before any of them was resolved. Each is therefore judged against that
//! world: what one contact destroys is still a car for every other contact
//! of the same tick. A contact that arrives in a later tick and names a car
//! that is gone finds nothing to do.

use vstd::prelude::*;
use crate::curve::Tangent;
use crate::geometry::IVec2;
use crate::lifetime::Lifetime;
use crate::player::Intent;
use crate::player::Player;
use crate::trajectory::Trajectory;
use crate::trajectory::TIME_LIMIT;

verus! {

/// An identifier that no entity of a world ever has. It can stand for a
/// collision shape that the world does not know.
pub const NO_ENTITY: u64 = u64::MAX;

/// The size of a car's collision shape.
#[derive(Clone, Copy, Debug, PartialEq, Eq, Structural)]
pub struct Footprint {
    pub width: u32,
    pub height: u32,
}

/// What is needed to put one car into the world.
#[derive(Clone, Copy, Debug, PartialEq, Eq, Structural)]
pub struct SpawnPlan {
    pub start: IVec2,
    pub end: IVec2,
    pub offset1: i32,
    pub offset2: i32,
    pub duration: u64,
    pub lifetime: u64,
    pub footprint: Footprint,
}

/// A car: an entity that travels along a trajectory until a contact or the
/// end of its lifetime removes it.
#[derive(Clone, Copy, Debug, PartialEq, Eq, Structural)]
pub struct Car {
    pub id: u64,
    pub trajectory: Trajectory,
    pub lifetime: Lifetime,
    pub position: IVec2,
    pub heading: Tangent,
    pub footprint: Footprint,
}

/// The onset of a contact between two collision shapes, in no particular order.
#[derive(Clone, Copy, Debug, PartialEq, Eq, Structural)]
pub struct Contact {
    pub first: u64,
    pub second: u64,
}

/// The choices that the rules of contact leave open.
#[derive(Clone, Copy, Debug, PartialEq, Eq, Structural)]
pub struct ContactRules {
    /// Whether a car that touches the player is removed, besides the player
    /// being sent back to the origin.
    pub destroy_car_on_player_contact: bool,
}

/// The registry of everything that lives in the play area.
pub struct World {
    pub cars: Vec<Car>,
    pub player: Option<Player>,
    pub next_id: u64,
}

/// The registry as a mathematical value: the cars in the order in which
/// they were spawned, the player if there is one, and the next free identifier.
pub struct WorldView {
    pub cars: Seq<Car>,
    pub player: Option<Player>,
    pub next_id: u64,
}

impl View for World {
    type V = WorldView;

    open spec fn view(&self) -> WorldView {
        WorldView { cars: self.cars@, player: self.player, next_id: self.next_id }
    }
}

impl SpawnPlan {
    /// The duration is one that a trajectory can hold, and the car lives at
    /// least as long as one traversal takes.
    pub open spec fn wf(self) -> bool {
        &&& 0 < self.duration <= TIME_LIMIT
        &&& self.duration <= self.lifetime
    }

    /// Tells whether the plan is well formed.
    pub fn is_valid(&self) -> (valid: bool)
        ensures
            valid == self.wf(),
    {
        0 < self.duration && self.duration <= TIME_LIMIT && self.duration <= self.lifetime
    }
}

impl Car {
    /// The car's trajectory is well formed.
    pub open spec fn wf(self) -> bool {
        self.trajectory.wf()
    }

    /// The car that `plan` describes, under the identifier `id`: it stands
    /// on the first point of its path and has no heading yet.
    pub open spec fn spawned(id: u64, plan: SpawnPlan) -> Car {
        Car {
            id,
            trajectory: Trajectory {
                curve: crate::curve::Curve::generated(
                    plan.start,
                    plan.end,
                    plan.offset1,
                    plan.offset2,
                ),
                elapsed: 0,
                duration: plan.duration,
            },
            lifetime: Lifetime { remaining: plan.lifetime },
            position: plan.start,
            heading: Tangent { x: 0, y: 0 },
            footprint: plan.footprint,
        }
    }

    /// The car after `dt` microseconds of travel: its trajectory has
    /// advanced, it stands on the point reached, and it heads along the
    /// tangent there.
    pub open spec fn moved(self, dt: u64) -> Car {
        Car {
            id: self.id,
            trajectory: self.trajectory.advanced(dt),
            lifetime: self.lifetime,
            position: self.trajectory.advanced(dt).current_position(),
            heading: self.trajectory.advanced(dt).current_velocity(),
            footprint: self.footprint,
        }
    }

    /// The car with `dt` microseconds less to live.
    pub open spec fn aged(self, dt: u64) -> Car {
        Car {
            id: self.id,
            trajectory: self.trajectory,
            lifetime: self.lifetime.ticked(dt),
            position: self.position,
            heading: self.heading,
            footprint: self.footprint,
        }
    }
}

/// No two cars of the sequence share an identifier.
pub open spec fn ids_distinct(cars: Seq<Car>) -> bool {
    forall|i: int, j: int|
        0 <= i < j < cars.len() ==> (#[trigger] cars[i]).id != (#[trigger] cars[j]).id
}

/// Whether some car of the sequence has the identifier `id`.
pub open spec fn has_id(cars: Seq<Car>, id: u64) -> bool {
    exists|i: int| 0 <= i < cars.len() && (#[trigger] cars[i]).id == id
}

/// Whether the car at index `i` is the first of the sequence with the
/// identifier `id`.
pub open spec fn is_first_with_id(cars: Seq<Car>, id: u64, i: int) -> bool {
    &&& 0 <= i < cars.len()
    &&& cars[i].id == id
    &&& forall|j: int| 0 <= j < i ==> (#[trigger] cars[j]).id != id
}

/// The function that moves a car by `dt` microseconds.
pub open spec fn move_by(dt: u64) -> spec_fn(Car) -> Car {
    |car: Car| car.moved(dt)
}

/// The function that ages a car by `dt` microseconds.
pub open spec fn age_by(dt: u64) -> spec_fn(Car) -> Car {
    |car: Car| car.aged(dt)
}

/// The function that gives a car's identifier.
pub open spec fn id_of() -> spec_fn(Car) -> u64 {
    |car: Car| car.id
}

/// Whether the contact has `id` on one of its sides.
pub open spec fn names(contact: Contact, id: u64) -> bool {
    contact.first == id || contact.second == id
}

/// The test that a car's lifetime outlasts a step of `dt` microseconds.
pub open spec fn outlives(dt: u64) -> spec_fn(Car) -> bool {
    |car: Car| !car.lifetime.expires_within(dt)
}

/// The test that a car's lifetime ends within a step of `dt` microseconds.
pub open spec fn expires(dt: u64) -> spec_fn(Car) -> bool {
    |car: Car| car.lifetime.expires_within(dt)
}

impl WorldView {
    /// Every car is well formed, identifiers are unique among the cars and
    /// the player, and all of them lie below the next free identifier.
    pub open spec fn wf(self) -> bool {
        &&& forall|i: int|
            0 <= i < self.cars.len() ==> (#[trigger] self.cars[i]).wf() && self.cars[i].id
                < self.next_id
        &&& ids_distinct(self.cars)
        &&& self.player matches Some(p) ==> p.id < self.next_id && !has_id(self.cars, p.id)
    }

    /// Whether `id` names a car that is in the world.
    pub open spec fn is_car(self, id: u64) -> bool {
        has_id(self.cars, id)
    }

    /// Whether `id` names the player.
    pub open spec fn is_player(self, id: u64) -> bool {
        self.player matches Some(p) && p.id == id
    }

    /// The world with the car of `plan` added, if an identifier is left for it.
    pub open spec fn after_spawn(self, plan: SpawnPlan) -> WorldView {
        if self.next_id < u64::MAX {
            WorldView {
                cars: self.cars.push(Car::spawned(self.next_id, plan)),
                player: self.player,
                next_id: (self.next_id + 1) as u64,
            }
        } else {
            self
        }
    }

    /// The world after every car has travelled for `dt` microseconds.
    pub open spec fn after_motion(self, dt: u64) -> WorldView {
        WorldView {
            cars: self.cars.map_values(move_by(dt)),
            player: self.player,
            next_id: self.next_id,
        }
    }

    /// The world after the player has responded to `intent` for `dt`
    /// microseconds. A world without a player stays as it is.
    pub open spec fn after_movement(self, intent: Intent, dt: u64) -> WorldView {
        match self.player {
            Some(p) => WorldView {
                cars: self.cars,
                player: Some(p.moved(intent, dt)),
                next_id: self.next_id,
            },
            None => self,
        }
    }

    /// Whether both sides of the contact are cars.
    pub open spec fn joins_cars(self, contact: Contact) -> bool {
        self.is_car(contact.first) && self.is_car(contact.second)
    }

    /// Whether one side of the contact is the player and the other a car.
    pub open spec fn joins_player_and_car(self, contact: Contact) -> bool {
        ||| self.is_player(contact.first) && self.is_car(contact.second)
        ||| self.is_player(contact.second) && self.is_car(contact.first)
    }

    /// Whether one of the contacts joins two cars and names `id`: the rule
    /// for two cars destroys the car `id`.
    pub open spec fn crushed(self, contacts: Seq<Contact>, id: u64) -> bool {
        exists|k: int|
            0 <= k < contacts.len() && names(#[trigger] contacts[k], id) && self.joins_cars(
                contacts[k],
            )
    }

    /// Whether one of the contacts joins the player and a car and names
    /// `id`: the car `id` has touched the player.
    pub open spec fn caught(self, contacts: Seq<Contact>, id: u64) -> bool {
        exists|k: int|
            0 <= k < contacts.len() && names(#[trigger] contacts[k], id)
                && self.joins_player_and_car(contacts[k])
    }

    /// Whether the contacts destroy the car `id`: a contact with another
    /// car does, and a contact with the player does if the rules say so.
    pub open spec fn doomed(self, contacts: Seq<Contact>, rules: ContactRules, id: u64) -> bool {
        self.crushed(contacts, id) || (rules.destroy_car_on_player_contact && self.caught(
            contacts,
            id,
        ))
    }

    /// Whether one of the contacts joins the player and a car: the player
    /// is sent back to the origin.
    pub open spec fn struck(self, contacts: Seq<Contact>) -> bool {
        exists|k: int|
            0 <= k < contacts.len() && self.joins_player_and_car(#[trigger] contacts[k])
    }

    /// The test that the rule for two cars destroys a car.
    pub open spec fn crushed_cars(self, contacts: Seq<Contact>) -> spec_fn(Car) -> bool {
        |car: Car| self.crushed(contacts, car.id)
    }

    /// The test that the contacts leave a car alone.
    pub open spec fn spared_cars(self, contacts: Seq<Contact>, rules: ContactRules) -> spec_fn(
        Car,
    ) -> bool {
        |car: Car| !self.doomed(contacts, rules, car.id)
    }

    /// The identifiers of the cars that the rule for two cars destroys, in
    /// the order of the registry.
    pub open spec fn crushed_ids(self, contacts: Seq<Contact>) -> Seq<u64> {
        self.cars.filter(self.crushed_cars(contacts)).map_values(id_of())
    }

    /// The world after the contacts of one tick have been resolved, every
    /// one of them judged against this world: the doomed cars are gone, the
    /// others are untouched, and the player is back on the origin if a
    /// contact joined it with a car.
    pub open spec fn after_contacts(self, contacts: Seq<Contact>, rules: ContactRules) -> WorldView {
        WorldView {
            cars: self.cars.filter(self.spared_cars(contacts, rules)),
            player: if self.struck(contacts) {
                Some(self.player.unwrap().reset())
            } else {
                self.player
            },
            next_id: self.next_id,
        }
    }

    /// The world after `dt` microseconds have been taken from every
    /// lifetime and the cars whose lifetime ran out have been removed.
    pub open spec fn after_expiry(self, dt: u64) -> WorldView {
        WorldView {
            cars: self.cars.filter(outlives(dt)).map_values(age_by(dt)),
            player: self.player,
            next_id: self.next_id,
        }
    }

    /// The identifiers of the cars whose lifetime ends within `dt`
    /// microseconds, in the order of the registry.
    pub open spec fn expiring_ids(self, dt: u64) -> Seq<u64> {
        self.cars.filter(expires(dt)).map_values(id_of())
    }
}

/// Keeping some of the cars of a registry keeps its order and the
/// uniqueness of its identifiers, and keeps exactly the cars that pass the test.
pub proof fn lemma_filter_keeps_registry(cars: Seq<Car>, keep: spec_fn(Car) -> bool)
    requires
        ids_distinct(cars),
    ensures
        ids_distinct(cars.filter(keep)),
        forall|k: int|
            0 <= k < cars.filter(keep).len() ==> keep(#[trigger] cars.filter(keep)[k])
                && cars.contains(cars.filter(keep)[k]),
        forall|i: int|
            0 <= i < cars.len() && keep(cars[i]) ==> cars.filter(keep).contains(#[trigger] cars[i]),
    decreases cars.len(),
{
    let kept = cars.filter(keep);
    if cars.len() == 0 {
        cars.lemma_filter_len(keep);
    } else {
        let rest = cars.drop_last();
        let last = cars.last();
        assert(cars =~= rest.push(last));
        rest.lemma_filter_push(last, keep);
        assert(ids_distinct(rest)) by {
            assert forall|i: int, j: int| 0 <= i < j < rest.len() implies (#[trigger] rest[i]).id
                != (#[trigger] rest[j]).id by {
                assert(cars[i].id != cars[j].id);
            }
        }
        lemma_filter_keeps_registry(rest, keep);
        let inner = rest.filter(keep);
        assert forall|k: int| 0 <= k < kept.len() implies keep(#[trigger] kept[k])
            && cars.contains(kept[k]) by {
            if k < inner.len() {
                assert(kept[k] == inner[k]);
                assert(rest.contains(inner[k]));
                let j = choose|j: int| 0 <= j < rest.len() && rest[j] == inner[k];
                assert(cars[j] == kept[k]);
            } else {
                assert(kept[k] == last);
                assert(cars[cars.len() - 1] == last);
            }
        }
        assert forall|i: int| 0 <= i < cars.len() && keep(cars[i]) implies kept.contains(
            #[trigger] cars[i],
        ) by {
            if i < rest.len() {
                assert(rest[i] == cars[i]);
                assert(inner.contains(rest[i]));
                let k = choose|k: int| 0 <= k < inner.len() && inner[k] == rest[i];
                assert(kept[k] == cars[i]);
            } else {
                assert(cars[i] == last);
                assert(kept[kept.len() - 1] == last);
            }
        }
        assert forall|a: int, b: int| 0 <= a < b < kept.len() implies (#[trigger] kept[a]).id != (
        #[trigger] kept[b]).id by {
            if b < inner.len() {
                assert(inner[a].id != inner[b].id);
            } else {
                assert(kept[b] == last);
                assert(kept[a] == inner[a]);
                assert(rest.contains(inner[a]));
                let j = choose|j: int| 0 <= j < rest.len() && rest[j] == inner[a];
                assert(cars[j].id != cars[cars.len() - 1].id);
            }
        }
    }
}

/// After some cars have been removed, a car is in the registry exactly if
/// it was there before and passes the test.
pub proof fn lemma_filter_membership(cars: Seq<Car>, keep: spec_fn(Car) -> bool, id: u64)
    requires
        ids_distinct(cars),
    ensures
        has_id(cars.filter(keep), id) <==> exists|i: int|
            0 <= i < cars.len() && (#[trigger] cars[i]).id == id && keep(cars[i]),
{
    let kept = cars.filter(keep);
    lemma_filter_keeps_registry(cars, keep);
    if has_id(kept, id) {
        let k = choose|k: int| 0 <= k < kept.len() && (#[trigger] kept[k]).id == id;
        assert(keep(kept[k]));
        assert(cars.contains(kept[k]));
        let j = choose|j: int| 0 <= j < cars.len() && cars[j] == kept[k];
        assert(cars[j].id == id && keep(cars[j]));
    }
    if exists|i: int| 0 <= i < cars.len() && (#[trigger] cars[i]).id == id && keep(cars[i]) {
        let i = choose|i: int| 0 <= i < cars.len() && (#[trigger] cars[i]).id == id && keep(cars[i]);
        assert(kept.contains(cars[i]));
        let k = choose|k: int| 0 <= k < kept.len() && kept[k] == cars[i];
        assert(kept[k].id == id);
    }
}

/// Two tests that agree on every car of a registry keep the same cars.
pub proof fn lemma_filter_by_equal_tests(
    cars: Seq<Car>,
    one: spec_fn(Car) -> bool,
    other: spec_fn(Car) -> bool,
)
    requires
        forall|i: int| 0 <= i < cars.len() ==> one(#[trigger] cars[i]) == other(cars[i]),
    ensures
        cars.filter(one) == cars.filter(other),
    decreases cars.len(),
{
    if cars.len() == 0 {
        cars.lemma_filter_len(one);
        cars.lemma_filter_len(other);
        assert(cars.filter(one) =~= cars.filter(other));
    } else {
        let rest = cars.drop_last();
        let last = cars.last();
        assert(cars =~= rest.push(last));
        assert forall|i: int| 0 <= i < rest.len() implies one(#[trigger] rest[i]) == other(
            rest[i],
        ) by {
            assert(rest[i] == cars[i]);
        }
        lemma_filter_by_equal_tests(rest, one, other);
        rest.lemma_filter_push(last, one);
        rest.lemma_filter_push(last, other);
        assert(last == cars[cars.len() - 1]);
    }
}

/// A test that every car of a registry passes keeps the registry as it is.
pub proof fn lemma_filter_keeps_all(cars: Seq<Car>, keep: spec_fn(Car) -> bool)
    requires
        forall|i: int| 0 <= i < cars.len() ==> keep(#[trigger] cars[i]),
    ensures
        cars.filter(keep) == cars,
    decreases cars.len(),
{
    if cars.len() == 0 {
        cars.lemma_filter_len(keep);
        assert(cars.filter(keep) =~= cars);
    } else {
        let rest = cars.drop_last();
        let last = cars.last();
        assert(cars =~= rest.push(last));
        assert forall|i: int| 0 <= i < rest.len() implies keep(#[trigger] rest[i]) by {
            assert(rest[i] == cars[i]);
        }
        lemma_filter_keeps_all(rest, keep);
        rest.lemma_filter_push(last, keep);
        assert(last == cars[cars.len() - 1]);
    }
}

/// Removing cars from a well-formed world leaves a well-formed world.
pub proof fn lemma_filter_keeps_wf(w: WorldView, keep: spec_fn(Car) -> bool)
    requires
        w.wf(),
    ensures
        (WorldView { cars: w.cars.filter(keep), player: w.player, next_id: w.next_id }).wf(),
{
    let kept = w.cars.filter(keep);
    lemma_filter_keeps_registry(w.cars, keep);
    assert forall|k: int| 0 <= k < kept.len() implies (#[trigger] kept[k]).wf() && kept[k].id
        < w.next_id by {
        assert(w.cars.contains(kept[k]));
        let j = choose|j: int| 0 <= j < w.cars.len() && w.cars[j] == kept[k];
        assert(w.cars[j].wf());
    }
    if w.player.is_some() {
        let p = w.player.unwrap();
        if has_id(kept, p.id) {
            let k = choose|k: int| 0 <= k < kept.len() && (#[trigger] kept[k]).id == p.id;
            assert(w.cars.contains(kept[k]));
            let j = choose|j: int| 0 <= j < w.cars.len() && w.cars[j] == kept[k];
            assert(w.cars[j].id == p.id);
        }
    }
}

impl World {
    /// An empty world without a player.
    pub fn new() -> (w: World)
        ensures
            w@.cars == Seq::<Car>::empty(),
            w@.player.is_none(),
            w@.next_id == 0,
            w@.wf(),
    {
        World { cars: Vec::new(), player: None, next_id: 0 }
    }

    /// Whether a car with the identifier `id` is in the world.
    pub fn contains_car(&self, id: u64) -> (found: bool)
        ensures
            found == self@.is_car(id),
    {
        let n: usize = self.cars.len();
        let mut i: usize = 0;
        while i < n
            invariant
                n == self.cars@.len(),
                i <= n,
                forall|j: int| 0 <= j < i ==> (#[trigger] self.cars@[j]).id != id,
            decreases n - i,
        {
            if self.cars[i].id == id {
                return true;
            }
            i = i + 1;
        }
        false
    }

    /// Looks up the car with the identifier `id`: the first one of the
    /// registry, which in a well-formed world is the only one.
    pub fn car(&self, id: u64) -> (found: Option<Car>)
        ensures
            found.is_some() == self@.is_car(id),
            found matches Some(car) ==> car.id == id && exists|i: int|
                #[trigger] is_first_with_id(self@.cars, id, i) && self@.cars[i] == car,
    {
        let n: usize = self.cars.len();
        let mut i: usize = 0;
        while i < n
            invariant
                n == self.cars@.len(),
                i <= n,
                forall|j: int| 0 <= j < i ==> (#[trigger] self.cars@[j]).id != id,
            decreases n - i,
        {
            if self.cars[i].id == id {
                assert(is_first_with_id(self@.cars, id, i as int));
                return Some(self.cars[i]);
            }
            i = i + 1;
        }
        None
    }

    /// Puts the player into the world, at rest on the origin, unless the
    /// world has a player already or no identifier is left. Returns the
    /// player's identifier.
    pub fn setup_player(&mut self) -> (id: Option<u64>)
        requires
            old(self)@.wf(),
        ensures
            final(self)@.wf(),
            final(self)@.cars == old(self)@.cars,
            old(self)@.player.is_some() ==> *final(self) == *old(self) && id == Some(
                old(self)@.player.unwrap().id,
            ),
            old(self)@.player.is_none() && old(self)@.next_id == u64::MAX ==> *final(self)
                == *old(self) && id.is_none(),
            old(self)@.player.is_none() && old(self)@.next_id < u64::MAX ==> id == Some(
                old(self)@.next_id,
            ) && final(self)@.next_id == old(self)@.next_id + 1 && final(self)@.player == Some(
                Player {
                    id: old(self)@.next_id,
                    position: IVec2::origin(),
                    velocity: IVec2::origin(),
                },
            ),
    {
        match self.player {
            Some(p) => Some(p.id),
            None => {
                if self.next_id == u64::MAX {
                    None
                } else {
                    let id: u64 = self.next_id;
                    self.player = Some(Player::new(id));
                    self.next_id = id + 1;
                    Some(id)
                }
            },
        }
    }

    /// Adds the car that `plan` describes and returns its identifier, or
    /// does nothing where no identifier is left.
    pub fn spawn_car(&mut self, plan: SpawnPlan) -> (id: Option<u64>)
        requires
            old(self)@.wf(),
            plan.wf(),
        ensures
            final(self)@ == old(self)@.after_spawn(plan),
            final(self)@.wf(),
            id == if old(self)@.next_id < u64::MAX {
                Some(old(self)@.next_id)
            } else {
                None
            },
    {
        if self.next_id == u64::MAX {
            return None;
        }
        let id: u64 = self.next_id;
        let trajectory = Trajectory::new(
            plan.start,
            plan.end,
            plan.offset1,
            plan.offset2,
            plan.duration,
        );
        let car = Car {
            id,
            trajectory,
            lifetime: Lifetime::new(plan.lifetime),
            position: plan.start,
            heading: Tangent { x: 0, y: 0 },
            footprint: plan.footprint,
        };
        self.cars.push(car);
        self.next_id = id + 1;
        proof {
            assert(car == Car::spawned(id, plan));
            assert(self@.cars =~= old(self)@.cars.push(car));
        }
        Some(id)
    }

    /// Advances every car along its trajectory by `dt` microseconds and
    /// writes the point reached and the heading there into the car.
    pub fn handle_trajectory(&mut self, dt: u64)
        requires
            old(self)@.wf(),
        ensures
            final(self)@ == old(self)@.after_motion(dt),
            final(self)@.wf(),
    {
        let n: usize = self.cars.len();
        let mut i: usize = 0;
        while i < n
            invariant
                n == self.cars@.len(),
                n == old(self)@.cars.len(),
                i <= n,
                self.player == old(self).player,
                self.next_id == old(self).next_id,
                old(self)@.wf(),
                forall|j: int| 0 <= j < i ==> #[trigger] self.cars@[j] == old(self)@.cars[j].moved(dt),
                forall|j: int| i <= j < n ==> #[trigger] self.cars@[j] == old(self)@.cars[j],
            decreases n - i,
        {
            let mut car: Car = self.cars[i];
            assert(old(self)@.cars[i as int].wf());
            car.trajectory.advance(dt);
            car.position = car.trajectory.pos();
            car.heading = car.trajectory.vel();
            self.cars[i] = car;
            i = i + 1;
        }
        proof {
            assert(self@.cars =~= old(self)@.cars.map_values(move_by(dt)));
            assert forall|k: int| 0 <= k < self@.cars.len() implies (
            #[trigger] self@.cars[k]).wf() && self@.cars[k].id < self@.next_id by {
                assert(old(self)@.cars[k].wf());
            }
            assert(ids_distinct(self@.cars)) by {
                assert forall|a: int, b: int| 0 <= a < b < self@.cars.len() implies (
                #[trigger] self@.cars[a]).id != (#[trigger] self@.cars[b]).id by {
                    assert(old(self)@.cars[a].id != old(self)@.cars[b].id);
                }
            }
            if self@.player.is_some() {
                let p = self@.player.unwrap();
                if has_id(self@.cars, p.id) {
                    let k = choose|k: int|
                        0 <= k < self@.cars.len() && (#[trigger] self@.cars[k]).id
                            == p.id;
                    assert(old(self)@.cars[k].id == p.id);
                }
            }
        }
    }

    /// Tells whether both sides of the contact are cars in the world.
    pub fn joins_two_cars(&self, contact: Contact) -> (joins: bool)
        ensures
            joins == self@.joins_cars(contact),
    {
        self.contains_car(contact.first) && self.contains_car(contact.second)
    }

    /// Tells whether one side of the contact is the player and the other a
    /// car in the world.
    pub fn joins_player_with_car(&self, contact: Contact) -> (joins: bool)
        ensures
            joins == self@.joins_player_and_car(contact),
    {
        match self.player {
            Some(player) => {
                (contact.first == player.id && self.contains_car(contact.second)) || (
                contact.second == player.id && self.contains_car(contact.first))
            },
            None => false,
        }
    }

    /// Tells whether the rule for two cars destroys the car `id`.
    fn is_crushed(&self, contacts: &Vec<Contact>, id: u64) -> (crushed: bool)
        ensures
            crushed == self@.crushed(contacts@, id),
    {
        let n: usize = contacts.len();
        let mut k: usize = 0;
        while k < n
            invariant
                n == contacts@.len(),
                k <= n,
                forall|j: int|
                    0 <= j < k ==> !(names(#[trigger] contacts@[j], id) && self@.joins_cars(
                        contacts@[j],
                    )),
            decreases n - k,
        {
            let contact: Contact = contacts[k];
            if (contact.first == id || contact.second == id) && self.joins_two_cars(contact) {
                return true;
            }
            k = k + 1;
        }
        false
    }

    /// Tells whether the car `id` has touched the player.
    fn is_caught(&self, contacts: &Vec<Contact>, id: u64) -> (caught: bool)
        ensures
            caught == self@.caught(contacts@, id),
    {
        let n: usize = contacts.len();
        let mut k: usize = 0;
        while k < n
            invariant
                n == contacts@.len(),
                k <= n,
                forall|j: int|
                    0 <= j < k ==> !(names(#[trigger] contacts@[j], id)
                        && self@.joins_player_and_car(contacts@[j])),
            decreases n - k,
        {
            let contact: Contact = contacts[k];
            if (contact.first == id || contact.second == id) && self.joins_player_with_car(
                contact,
            ) {
                return true;
            }
            k = k + 1;
        }
        false
    }

    /// The rule for two cars, over the contacts of one tick: every car
    /// that a contact joins with another car is to be destroyed. Returns
    /// the identifiers of those cars in the order of the registry. The
    /// world itself is changed by `resolve_contacts`, which carries out
    /// both rules at once.
    pub fn car_car_contact(&self, contacts: &Vec<Contact>) -> (destroyed: Vec<u64>)
        ensures
            destroyed@ == self@.crushed_ids(contacts@),
    {
        let ghost crushed = self@.crushed_cars(contacts@);
        let mut destroyed: Vec<u64> = Vec::new();
        let n: usize = self.cars.len();
        let mut i: usize = 0;
        proof {
            self.cars@.take(0).lemma_filter_len(crushed);
        }
        while i < n
            invariant
                n == self.cars@.len(),
                i <= n,
                crushed == self@.crushed_cars(contacts@),
                destroyed@ == self.cars@.take(i as int).filter(crushed).map_values(id_of()),
            decreases n - i,
        {
            let car: Car = self.cars[i];
            proof {
                self.cars@.lemma_take_succ_push(i as int);
                self.cars@.take(i as int).lemma_filter_push(car, crushed);
                self.cars@.take(i as int).filter(crushed).lemma_push_map_commute(id_of(), car);
            }
            if self.is_crushed(contacts, car.id) {
                destroyed.push(car.id);
            }
            i = i + 1;
        }
        proof {
            self.cars@.lemma_take_len();
        }
        destroyed
    }

    /// The rule for the player, over the contacts of one tick: tells
    /// whether a contact joins the player and a car, which sends the player
    /// back to the origin. The world itself is changed by
    /// `resolve_contacts`, which carries out both rules at once.
    pub fn car_player_contact(&self, contacts: &Vec<Contact>) -> (reset: bool)
        ensures
            reset == self@.struck(contacts@),
    {
        let n: usize = contacts.len();
        let mut k: usize = 0;
        while k < n
            invariant
                n == contacts@.len(),
                k <= n,
                forall|j: int| 0 <= j < k ==> !self@.joins_player_and_car(#[trigger] contacts@[j]),
            decreases n - k,
        {
            if self.joins_player_with_car(contacts[k]) {
                return true;
            }
            k = k + 1;
        }
        false
    }

    /// Resolves the contacts of one tick. Every contact is judged against
    /// the world as it stands before any of them is resolved: each car that
    /// a contact joins with another car is destroyed; the player is sent
    /// back to the origin if a contact joins it with a car, and that car is
    /// destroyed too if the rules say so. Tells whether the player was sent
    /// back.
    pub fn resolve_contacts(&mut self, contacts: &Vec<Contact>, rules: ContactRules) -> (reset:
        bool)
        requires
            old(self)@.wf(),
        ensures
            final(self)@ == old(self)@.after_contacts(contacts@, rules),
            reset == old(self)@.struck(contacts@),
            final(self)@.wf(),
    {
        let reset: bool = self.car_player_contact(contacts);
        let ghost spared = self@.spared_cars(contacts@, rules);
        let mut kept: Vec<Car> = Vec::new();
        let n: usize = self.cars.len();
        let mut i: usize = 0;
        proof {
            self.cars@.take(0).lemma_filter_len(spared);
        }
        while i < n
            invariant
                n == self.cars@.len(),
                i <= n,
                *self == *old(self),
                spared == self@.spared_cars(contacts@, rules),
                kept@ == self.cars@.take(i as int).filter(spared),
            decreases n - i,
        {
            let car: Car = self.cars[i];
            proof {
                self.cars@.lemma_take_succ_push(i as int);
                self.cars@.take(i as int).lemma_filter_push(car, spared);
            }
            let crushed: bool = self.is_crushed(contacts, car.id);
            let caught: bool = rules.destroy_car_on_player_contact && self.is_caught(
                contacts,
                car.id,
            );
            if !crushed && !caught {
                kept.push(car);
            }
            i = i + 1;
        }
        proof {
            self.cars@.lemma_take_len();
            lemma_filter_keeps_wf(self@, spared);
        }
        self.cars = kept;
        if reset {
            match self.player {
                Some(player) => {
                    self.player = Some(
                        Player {
                            id: player.id,
                            position: IVec2::zero(),
                            velocity: player.velocity,
                        },
                    );
                },
                None => {},
            }
        }
        reset
    }

    /// Takes `dt` microseconds from the lifetime of every car and removes
    /// the cars whose lifetime has run out. Returns the identifiers of the
    /// removed cars in the order of the registry.
    pub fn tick_lifetimes(&mut self, dt: u64) -> (removed: Vec<u64>)
        requires
            old(self)@.wf(),
        ensures
            final(self)@ == old(self)@.after_expiry(dt),
            removed@ == old(self)@.expiring_ids(dt),
            final(self)@.wf(),
    {
        let ghost stay = outlives(dt);
        let ghost go = expires(dt);
        let mut kept: Vec<Car> = Vec::new();
        let mut removed: Vec<u64> = Vec::new();
        let n: usize = self.cars.len();
        let mut i: usize = 0;
        proof {
            self.cars@.take(0).lemma_filter_len(stay);
            self.cars@.take(0).lemma_filter_len(go);
        }
        while i < n
            invariant
                n == self.cars@.len(),
                i <= n,
                stay == outlives(dt),
                go == expires(dt),
                kept@ == self.cars@.take(i as int).filter(stay).map_values(age_by(dt)),
                removed@ == self.cars@.take(i as int).filter(go).map_values(id_of()),
            decreases n - i,
        {
            let mut car: Car = self.cars[i];
            proof {
                self.cars@.lemma_take_succ_push(i as int);
                self.cars@.take(i as int).lemma_filter_push(car, stay);
                self.cars@.take(i as int).lemma_filter_push(car, go);
                self.cars@.take(i as int).filter(stay).lemma_push_map_commute(age_by(dt), car);
                self.cars@.take(i as int).filter(go).lemma_push_map_commute(id_of(), car);
            }
            let ghost before = car;
            if car.lifetime.tick(dt) {
                removed.push(car.id);
            } else {
                assert(car == before.aged(dt));
                kept.push(car);
            }
            i = i + 1;
        }
        proof {
            self.cars@.lemma_take_len();
            lemma_expiry_keeps_wf(self@, dt);
        }
        self.cars = kept;
        removed
    }

    /// Lets the player respond to the held directions for `dt`
    /// microseconds. A world without a player stays as it is.
    pub fn movement(&mut self, intent: Intent, dt: u64)
        requires
            old(self)@.wf(),
        ensures
            final(self)@ == old(self)@.after_movement(intent, dt),
            final(self)@.wf(),
    {
        match self.player {
            Some(p) => {
                let mut player: Player = p;
                player.movement(intent, dt);
                self.player = Some(player);
            },
            None => {},
        }
    }
}

/// Removing the expired cars and ageing the others leaves a well-formed world.
pub proof fn lemma_expiry_keeps_wf(w: WorldView, dt: u64)
    requires
        w.wf(),
    ensures
        w.after_expiry(dt).wf(),
{
    let kept = w.cars.filter(outlives(dt));
    let aged = kept.map_values(age_by(dt));
    lemma_filter_keeps_wf(w, outlives(dt));
    let middle = WorldView { cars: kept, player: w.player, next_id: w.next_id };
    assert(middle.wf());
    assert forall|k: int| 0 <= k < aged.len() implies (#[trigger] aged[k]).wf() && aged[k].id
        < w.next_id by {
        assert(kept[k].wf());
    }
    assert forall|a: int, b: int| 0 <= a < b < aged.len() implies (#[trigger] aged[a]).id != (
    #[trigger] aged[b]).id by {
        assert(kept[a].id != kept[b].id);
    }
    if w.player.is_some() {
        let p = w.player.unwrap();
        if has_id(aged, p.id) {
            let k = choose|k: int| 0 <= k < aged.len() && (#[trigger] aged[k]).id == p.id;
            assert(kept[k].id == p.id);
        }
    }
}

/// `NO_ENTITY` names neither a car nor the player, so a contact with it on
/// either side joins nothing.
pub proof fn lemma_no_entity_names_nothing(w: WorldView, contact: Contact)
    requires
        w.wf(),
        names(contact, NO_ENTITY),
    ensures
        !w.is_car(NO_ENTITY),
        !w.is_player(NO_ENTITY),
        !w.joins_cars(contact),
        !w.joins_player_and_car(contact),
{
    if has_id(w.cars, NO_ENTITY) {
        let i = choose|i: int| 0 <= i < w.cars.len() && (#[trigger] w.cars[i]).id == NO_ENTITY;
        assert(w.cars[i].id < w.next_id);
    }
}

/// Whether the car still has the time to finish its path: the time it has
/// travelled and the time it has left to live together cover one traversal.
pub open spec fn covers_path(car: Car) -> bool {
    car.trajectory.elapsed + car.lifetime.remaining >= car.trajectory.duration
}

/// A car starts out with the time to finish its path, since a plan gives
/// it at least the time of one traversal to live.
pub proof fn lemma_spawned_car_covers_path(id: u64, plan: SpawnPlan)
    requires
        plan.wf(),
    ensures
        covers_path(Car::spawned(id, plan)),
        Car::spawned(id, plan).wf(),
{
    crate::curve::lemma_bend_bounded(plan.start, plan.end, plan.offset1);
    crate::curve::lemma_bend_bounded(plan.start, plan.end, plan.offset2);
}

/// A car with the time to finish its path is not removed before it has
/// reached the end: as long as motion and lifetime are stepped together,
/// the car either survives the step and still has the time to finish, or
/// it is removed with its path completed.
pub proof fn lemma_car_outlives_its_path(car: Car, dt: u64)
    requires
        car.wf(),
        covers_path(car),
    ensures
        !car.lifetime.expires_within(dt) ==> covers_path(car.moved(dt).aged(dt)),
        car.lifetime.expires_within(dt) ==> car.moved(dt).trajectory.elapsed
            >= car.trajectory.duration,
{
}

/// Whether the car's whole life fits the time that a trajectory can hold:
/// the time it has travelled and the time it has left together stay within
/// the limit.
pub open spec fn within_limit(car: Car) -> bool {
    car.trajectory.elapsed + car.lifetime.remaining <= TIME_LIMIT
}

/// A car starts out with a life that fits the limit where its plan gives
/// it no more than the limit to live, as every plan of a well-formed spawn
/// tier does.
pub proof fn lemma_spawned_car_within_limit(id: u64, plan: SpawnPlan)
    requires
        plan.lifetime <= TIME_LIMIT,
    ensures
        within_limit(Car::spawned(id, plan)),
{
}

/// A living car keeps moving: as long as motion and lifetime are stepped
/// together, every step of positive length strictly increases the progress
/// of a car whose life fits the limit, until the car expires.
pub proof fn lemma_living_car_keeps_moving(car: Car, dt: u64)
    requires
        car.wf(),
        within_limit(car),
        car.lifetime.remaining > 0,
        0 < dt,
    ensures
        car.moved(dt).trajectory.elapsed > car.trajectory.elapsed,
        car.moved(dt).trajectory.duration == car.trajectory.duration,
        !car.lifetime.expires_within(dt) ==> within_limit(car.moved(dt).aged(dt)) && car.moved(
            dt,
        ).aged(dt).lifetime.remaining > 0,
{
}

/// Travelling for `a` and then for `b` microseconds is travelling for
/// `a + b`: the steps of a tick add up.
pub proof fn lemma_motion_adds_up(car: Car, a: u64, b: u64)
    requires
        a + b <= u64::MAX,
    ensures
        car.moved(a).moved(b) == car.moved((a + b) as u64),
        car.aged(a).aged(b) == car.aged((a + b) as u64),
{
}

/// Resolving the contacts of a tick leaves a well-formed world, in which a
/// car stands exactly if it stood there before and no contact doomed it.
/// Where a contact with the player spares the car, the destroyed cars are
/// exactly those that a contact joins with another car. The cars that stay
/// are untouched, and so is the player unless a contact joins it with a car.
pub proof fn lemma_contacts_destroy_the_doomed(
    w: WorldView,
    contacts: Seq<Contact>,
    rules: ContactRules,
    id: u64,
)
    requires
        w.wf(),
    ensures
        w.after_contacts(contacts, rules).wf(),
        w.after_contacts(contacts, rules).is_car(id) <==> w.is_car(id) && !w.doomed(
            contacts,
            rules,
            id,
        ),
        !rules.destroy_car_on_player_contact ==> (w.after_contacts(contacts, rules).is_car(id)
            <==> w.is_car(id) && !w.crushed(contacts, id)),
        !w.struck(contacts) ==> w.after_contacts(contacts, rules).player == w.player,
        forall|k: int|
            0 <= k < w.after_contacts(contacts, rules).cars.len() ==> w.cars.contains(
                #[trigger] w.after_contacts(contacts, rules).cars[k],
            ),
{
    let spared = w.spared_cars(contacts, rules);
    lemma_filter_keeps_wf(w, spared);
    lemma_filter_keeps_registry(w.cars, spared);
    lemma_filter_membership(w.cars, spared, id);
    if w.is_car(id) && !w.doomed(contacts, rules, id) {
        let i = choose|i: int| 0 <= i < w.cars.len() && (#[trigger] w.cars[i]).id == id;
        assert(spared(w.cars[i]));
    }
}

/// A contact between two cars destroys both, whatever else happens in the
/// same tick: a car that several contacts of the tick name is destroyed
/// once, and every contact that names it still counts.
pub proof fn lemma_car_car_contact_destroys_both(
    w: WorldView,
    contacts: Seq<Contact>,
    rules: ContactRules,
    k: int,
)
    requires
        w.wf(),
        0 <= k < contacts.len(),
        w.joins_cars(contacts[k]),
    ensures
        !w.after_contacts(contacts, rules).is_car(contacts[k].first),
        !w.after_contacts(contacts, rules).is_car(contacts[k].second),
{
    assert(names(contacts[k], contacts[k].first) && names(contacts[k], contacts[k].second));
    assert(w.crushed(contacts, contacts[k].first));
    assert(w.crushed(contacts, contacts[k].second));
    lemma_contacts_destroy_the_doomed(w, contacts, rules, contacts[k].first);
    lemma_contacts_destroy_the_doomed(w, contacts, rules, contacts[k].second);
}

/// Contacts none of which joins two cars or the player and a car change
/// nothing: any other pairing is ignored.
pub proof fn lemma_other_contacts_change_nothing(
    w: WorldView,
    contacts: Seq<Contact>,
    rules: ContactRules,
)
    requires
        forall|k: int|
            0 <= k < contacts.len() ==> !w.joins_cars(#[trigger] contacts[k])
                && !w.joins_player_and_car(contacts[k]),
    ensures
        w.after_contacts(contacts, rules) == w,
{
    lemma_filter_keeps_all(w.cars, w.spared_cars(contacts, rules));
}

/// A contact that is reported again changes nothing. Reported twice in one
/// tick, it counts once; reported again in a later tick, it finds the cars
/// that it destroyed gone and does nothing.
pub proof fn lemma_repeated_contact_changes_nothing(
    w: WorldView,
    contacts: Seq<Contact>,
    rules: ContactRules,
    k: int,
)
    requires
        w.wf(),
        0 <= k < contacts.len(),
    ensures
        w.after_contacts(contacts.push(contacts[k]), rules) == w.after_contacts(contacts, rules),
        w.joins_cars(contacts[k]) ==> w.after_contacts(contacts, rules).after_contacts(
            seq![contacts[k]],
            rules,
        ) == w.after_contacts(contacts, rules),
{
    let again = contacts.push(contacts[k]);
    assert forall|id: u64| w.doomed(again, rules, id) == w.doomed(contacts, rules, id) by {
        lemma_pushed_copy_names_no_more(w, contacts, k, id);
    }
    assert(w.struck(again) == w.struck(contacts)) by {
        if w.struck(again) {
            let j = choose|j: int|
                0 <= j < again.len() && w.joins_player_and_car(#[trigger] again[j]);
            if j < contacts.len() {
                assert(w.joins_player_and_car(contacts[j]));
            } else {
                assert(w.joins_player_and_car(contacts[k]));
            }
        }
        if w.struck(contacts) {
            let j = choose|j: int|
                0 <= j < contacts.len() && w.joins_player_and_car(#[trigger] contacts[j]);
            assert(again[j] == contacts[j]);
        }
    }
    lemma_filter_by_equal_tests(w.cars, w.spared_cars(again, rules), w.spared_cars(contacts, rules));
    if w.joins_cars(contacts[k]) {
        let after = w.after_contacts(contacts, rules);
        let single = seq![contacts[k]];
        lemma_car_car_contact_destroys_both(w, contacts, rules, k);
        assert forall|j: int| 0 <= j < single.len() implies !after.joins_cars(#[trigger] single[j])
            && !after.joins_player_and_car(single[j]) by {
            assert(single[j] == contacts[k]);
        }
        lemma_other_contacts_change_nothing(after, single, rules);
    }
}

proof fn lemma_pushed_copy_names_no_more(w: WorldView, contacts: Seq<Contact>, k: int, id: u64)
    requires
        0 <= k < contacts.len(),
    ensures
        w.crushed(contacts.push(contacts[k]), id) == w.crushed(contacts, id),
        w.caught(contacts.push(contacts[k]), id) == w.caught(contacts, id),
{
    let again = contacts.push(contacts[k]);
    if w.crushed(again, id) {
        let j = choose|j: int|
            0 <= j < again.len() && names(#[trigger] again[j], id) && w.joins_cars(again[j]);
        if j < contacts.len() {
            assert(names(contacts[j], id) && w.joins_cars(contacts[j]));
        } else {
            assert(names(contacts[k], id) && w.joins_cars(contacts[k]));
        }
    }
    if w.crushed(contacts, id) {
        let j = choose|j: int|
            0 <= j < contacts.len() && names(#[trigger] contacts[j], id) && w.joins_cars(
                contacts[j],
            );
        assert(again[j] == contacts[j]);
    }
    if w.caught(again, id) {
        let j = choose|j: int|
            0 <= j < again.len() && names(#[trigger] again[j], id) && w.joins_player_and_car(
                again[j],
            );
        if j < contacts.len() {
            assert(names(contacts[j], id) && w.joins_player_and_car(contacts[j]));
        } else {
            assert(names(contacts[k], id) && w.joins_player_and_car(contacts[k]));
        }
    }
    if w.caught(contacts, id) {
        let j = choose|j: int|
            0 <= j < contacts.len() && names(#[trigger] contacts[j], id)
                && w.joins_player_and_car(contacts[j]);
        assert(again[j] == contacts[j]);
    }
}

proof fn lemma_swapped_halves_name_the_same(
    w: WorldView,
    front: Seq<Contact>,
    back: Seq<Contact>,
    id: u64,
)
    ensures
        w.crushed(front + back, id) ==> w.crushed(back + front, id),
        w.caught(front + back, id) ==> w.caught(back + front, id),
        w.struck(front + back) ==> w.struck(back + front),
{
    let one = front + back;
    let other = back + front;
    if w.crushed(one, id) {
        let j = choose|j: int|
            0 <= j < one.len() && names(#[trigger] one[j], id) && w.joins_cars(one[j]);
        if j < front.len() {
            assert(other[back.len() + j] == one[j]);
        } else {
            assert(other[j - front.len()] == one[j]);
        }
    }
    if w.caught(one, id) {
        let j = choose|j: int|
            0 <= j < one.len() && names(#[trigger] one[j], id) && w.joins_player_and_car(one[j]);
        if j < front.len() {
            assert(other[back.len() + j] == one[j]);
        } else {
            assert(other[j - front.len()] == one[j]);
        }
    }
    if w.struck(one) {
        let j = choose|j: int| 0 <= j < one.len() && w.joins_player_and_car(#[trigger] one[j]);
        if j < front.len() {
            assert(other[back.len() + j] == one[j]);
        } else {
            assert(other[j - front.len()] == one[j]);
        }
    }
}

/// The order in which the contacts of a tick arrive does not matter:
/// moving any number of them from the front to the back gives the same world.
pub proof fn lemma_contact_order_is_irrelevant(
    w: WorldView,
    front: Seq<Contact>,
    back: Seq<Contact>,
    rules: ContactRules,
)
    ensures
        w.after_contacts(front + back, rules) == w.after_contacts(back + front, rules),
{
    let one = front + back;
    let other = back + front;
    assert forall|i: int| 0 <= i < w.cars.len() implies w.spared_cars(one, rules)(
        #[trigger] w.cars[i],
    ) == w.spared_cars(other, rules)(w.cars[i]) by {
        lemma_swapped_halves_name_the_same(w, front, back, w.cars[i].id);
        lemma_swapped_halves_name_the_same(w, back, front, w.cars[i].id);
    }
    lemma_filter_by_equal_tests(w.cars, w.spared_cars(one, rules), w.spared_cars(other, rules));
    lemma_swapped_halves_name_the_same(w, front, back, 0);
    lemma_swapped_halves_name_the_same(w, back, front, 0);
}

/// A contact between the player and a car puts the player on the origin,
/// wherever the player was and whatever else happens in the same tick, and
/// keeps the player's identifier and velocity. The car is destroyed if the
/// rules say so.
pub proof fn lemma_car_player_contact_resets_player(
    w: WorldView,
    contacts: Seq<Contact>,
    rules: ContactRules,
    k: int,
)
    requires
        w.wf(),
        0 <= k < contacts.len(),
        w.joins_player_and_car(contacts[k]),
    ensures
        w.after_contacts(contacts, rules).player == Some(w.player.unwrap().reset()),
        w.after_contacts(contacts, rules).player.unwrap().position == IVec2::origin(),
        w.after_contacts(contacts, rules).player.unwrap().velocity == w.player.unwrap().velocity,
        rules.destroy_car_on_player_contact ==> !w.after_contacts(contacts, rules).is_car(
            contacts[k].first,
        ) && !w.after_contacts(contacts, rules).is_car(contacts[k].second),
{
    let after = w.after_contacts(contacts, rules);
    assert(w.struck(contacts));
    assert(names(contacts[k], contacts[k].first) && names(contacts[k], contacts[k].second));
    lemma_contacts_destroy_the_doomed(w, contacts, rules, contacts[k].first);
    lemma_contacts_destroy_the_doomed(w, contacts, rules, contacts[k].second);
    if rules.destroy_car_on_player_contact {
        assert(w.caught(contacts, contacts[k].first));
        assert(w.caught(contacts, contacts[k].second));
    }
}

} // verus!
