//! The world: the table of entities, the level, and what every system may
//! consult. Entities are slots of the table, in the order of their
//! creation; systems visit them in that order. A deleted entity leaves an
//! empty slot behind, which is never used again.

use vstd::prelude::*;
use crate::components::{Components, Entity, EntityModel, SufferDamage};
use crate::game_log::GameLog;
use crate::geometry::Coord;
use crate::map::{GameMap, MapModel};
use crate::state::RunState;

verus! {

/// The largest sight range or blast radius that a component may carry.
/// Twice such a range, squared, still fits 32 bits.
pub const MAX_RANGE: i32 = 23170;

/// A broken assumption of the simulation: something that has to be there
/// was not. None of these can be recovered from; the caller is expected to
/// stop.
#[derive(Clone, Copy, Debug, PartialEq, Eq, Structural)]
pub enum Fault {
    /// A component names an entity that does not exist or was deleted.
    NoSuchEntity,
    MissingName,
    MissingCombatStats,
    MissingPosition,
}

/// The kinds of intent that an entity can hold for the duration of a turn.
#[derive(Clone, Copy, Debug, PartialEq, Eq, Structural)]
pub enum IntentKind {
    Melee,
    Pickup,
    UseItem,
    DropItem,
}

/// The whole state of a game: every entity with its components, the level,
/// and the handful of values that every system may consult.
pub struct World {
    pub entities: Vec<Components>,
    pub map: GameMap,
    pub player: Entity,
    pub player_position: Coord,
    pub run_state: RunState,
    pub log: GameLog,
    /// Entities to delete once the current pass over the systems is over.
    pub pending_deletions: Vec<Entity>,
}

/// The mathematical content of a `World`.
pub struct WorldModel {
    pub entities: Seq<EntityModel>,
    pub map: MapModel,
    pub player: Entity,
    pub player_position: Coord,
    pub run_state: RunState,
    pub log: Seq<Seq<char>>,
    pub pending_deletions: Seq<Entity>,
}

impl View for World {
    type V = WorldModel;

    open spec fn view(&self) -> WorldModel {
        WorldModel {
            entities: Seq::new(self.entities@.len(), |i: int| self.entities@[i]@),
            map: self.map@,
            player: self.player,
            player_position: self.player_position,
            run_state: self.run_state,
            log: self.log@,
            pending_deletions: self.pending_deletions@,
        }
    }
}

/// The outcome of a step that may hit a `Fault`.
pub type Step = Result<WorldModel, Fault>;

impl WorldModel {
    /// Whether `e` names a slot that holds a live entity.
    pub open spec fn is_alive(self, e: Entity) -> bool {
        e.id < self.entities.len() && self.entities[e.id as int].alive
    }

    pub open spec fn range_ok(r: i32) -> bool {
        -MAX_RANGE <= r <= MAX_RANGE
    }

    /// What has to hold of an entity on the level `map`.
    pub open spec fn entity_wf(map: MapModel, e: EntityModel) -> bool {
        &&& !e.alive ==> e == EntityModel::blank(false)
        &&& e.position matches Some(p) ==> map.in_bounds(p.x as int, p.y as int)
        &&& e.viewshed matches Some(v) ==> Self::range_ok(v.range)
        &&& e.area_of_effect matches Some(a) ==> Self::range_ok(a.radius)
        &&& e.wants_to_use_item matches Some(u) ==> (u.target matches Some(t) ==> map.in_bounds(
            t.x as int,
            t.y as int,
        ))
    }

    /// What has to hold of one slot in a well-formed world.
    pub open spec fn slot_wf(self, i: int) -> bool {
        Self::entity_wf(self.map, self.entities[i])
    }

    /// The level is well formed, everything with a position stands on the
    /// level, as does everything that is aimed at, deleted slots are empty,
    /// and ranges are small enough to compute with.
    pub open spec fn wf(self) -> bool {
        &&& self.map.wf()
        &&& self.map.in_bounds(self.player_position.x as int, self.player_position.y as int)
        &&& forall|i: int| 0 <= i < self.entities.len() ==> #[trigger] self.slot_wf(i)
    }

    /// The world with slot `i` replaced.
    pub open spec fn with_entity(self, i: int, e: EntityModel) -> WorldModel {
        WorldModel { entities: self.entities.update(i, e), ..self }
    }

    /// The world with one more line at the end of its log.
    pub open spec fn logged(self, line: Seq<char>) -> WorldModel {
        WorldModel { log: self.log.push(line), ..self }
    }

    /// Queues `amount` of damage against `victim`, starting an accumulator
    /// if it has none yet.
    pub open spec fn new_damage(self, victim: Entity, amount: i32) -> Step {
        if !self.is_alive(victim) {
            Err(Fault::NoSuchEntity)
        } else {
            let e = self.entities[victim.id as int];
            let queue = match e.suffer_damage {
                Some(q) => q.push(amount),
                None => seq![amount],
            };
            Ok(self.with_entity(victim.id as int, EntityModel { suffer_damage: Some(queue), ..e }))
        }
    }

    /// Whether slot `j` is marked for deletion.
    pub open spec fn doomed(self, j: int) -> bool {
        names_slot(self.pending_deletions, j)
    }

    /// The world after the deletions that were put off have been carried
    /// out.
    pub open spec fn maintained(self) -> WorldModel {
        WorldModel {
            entities: Seq::new(
                self.entities.len(),
                |j: int|
                    if self.doomed(j) {
                        EntityModel::blank(false)
                    } else {
                        self.entities[j]
                    },
            ),
            pending_deletions: Seq::empty(),
            ..self
        }
    }

    /// Empties slot `e`, which has to hold a live entity.
    pub open spec fn delete_entity(self, e: Entity) -> Step {
        if !self.is_alive(e) {
            Err(Fault::NoSuchEntity)
        } else {
            Ok(self.with_entity(e.id as int, EntityModel::blank(false)))
        }
    }
}

/// The entity without its intent of the given kind.
pub open spec fn without_intent(e: EntityModel, kind: IntentKind) -> EntityModel {
    match kind {
        IntentKind::Melee => EntityModel { wants_to_melee: None, ..e },
        IntentKind::Pickup => EntityModel { wants_to_pickup_item: None, ..e },
        IntentKind::UseItem => EntityModel { wants_to_use_item: None, ..e },
        IntentKind::DropItem => EntityModel { wants_to_drop_item: None, ..e },
    }
}

/// The world with every intent of the given kind removed.
pub open spec fn without_intents(m: WorldModel, kind: IntentKind) -> WorldModel {
    WorldModel {
        entities: Seq::new(m.entities.len(), |i: int| without_intent(m.entities[i], kind)),
        ..m
    }
}

/// Whether the handle of slot `j` is in `list`.
pub open spec fn names_slot(list: Seq<Entity>, j: int) -> bool {
    list.contains(Entity { id: j as usize })
}

/// Applies `step` to the slots `0 .. n` in order, stopping at the first
/// fault.
pub open spec fn fold_slots(w: WorldModel, n: int, step: spec_fn(WorldModel, int) -> Step) -> Step
    decreases n,
{
    if n <= 0 {
        Ok(w)
    } else {
        match fold_slots(w, n - 1, step) {
            Ok(m) => step(m, n - 1),
            Err(f) => Err(f),
        }
    }
}

/// Once a fold has hit a fault, continuing it yields the same fault.
pub proof fn lemma_fold_fault_sticks(
    w: WorldModel,
    k: int,
    n: int,
    step: spec_fn(WorldModel, int) -> Step,
)
    requires
        0 <= k <= n,
        fold_slots(w, k, step) is Err,
    ensures
        fold_slots(w, n, step) == fold_slots(w, k, step),
    decreases n - k,
{
    if k < n {
        lemma_fold_fault_sticks(w, k, n - 1, step);
    }
}

impl World {
    pub open spec fn wf(&self) -> bool {
        self@.wf()
    }

    /// A world that holds the given level and nothing else. The player
    /// handle names the first entity that will be created.
    pub fn new(map: GameMap, run_state: RunState) -> (world: World)
        requires
            map.wf(),
        ensures
            world.wf(),
            world@ == (WorldModel {
                entities: Seq::empty(),
                map: map@,
                player: Entity { id: 0 },
                player_position: Coord { x: 0, y: 0 },
                run_state,
                log: Seq::empty(),
                pending_deletions: Seq::empty(),
            }),
    {
        let world = World {
            entities: Vec::new(),
            map,
            player: Entity { id: 0 },
            player_position: Coord { x: 0, y: 0 },
            run_state,
            log: GameLog::new(),
            pending_deletions: Vec::new(),
        };
        proof {
            assert(world@.entities =~= Seq::empty());
        }
        world
    }

    #[verifier::when_used_as_spec(spec_is_alive)]
    pub fn is_alive(&self, e: Entity) -> (r: bool)
        ensures
            r == self@.is_alive(e),
    {
        e.id < self.entities.len() && self.entities[e.id].alive
    }

    pub open spec fn spec_is_alive(&self, e: Entity) -> bool {
        self@.is_alive(e)
    }

    fn check_slot(&self, i: usize) -> (r: bool)
        requires
            i < self@.entities.len(),
        ensures
            r == self@.slot_wf(i as int),
    {
        let c = &self.entities[i];
        if !c.alive && !c.is_blank() {
            return false;
        }
        match c.position {
            Some(p) => {
                if !self.map.in_bounds(p.x, p.y) {
                    return false;
                }
            },
            None => {},
        }
        match &c.viewshed {
            Some(v) => {
                if v.range < -MAX_RANGE || v.range > MAX_RANGE {
                    return false;
                }
            },
            None => {},
        }
        match c.area_of_effect {
            Some(a) => {
                if a.radius < -MAX_RANGE || a.radius > MAX_RANGE {
                    return false;
                }
            },
            None => {},
        }
        match c.wants_to_use_item {
            Some(u) => match u.target {
                Some(t) => self.map.in_bounds(t.x, t.y),
                None => true,
            },
            None => true,
        }
    }

    /// Decides whether the world is well formed.
    pub fn check(&self) -> (ok: bool)
        ensures
            ok == self.wf(),
    {
        if !self.map.check() {
            return false;
        }
        if !self.map.in_bounds(self.player_position.x, self.player_position.y) {
            return false;
        }
        let n = self.entities.len();
        let mut i: usize = 0;
        while i < n
            invariant
                i <= n,
                n == self@.entities.len(),
                forall|j: int| 0 <= j < i ==> #[trigger] self@.slot_wf(j),
            decreases n - i,
        {
            if !self.check_slot(i) {
                return false;
            }
            i += 1;
        }
        true
    }

    /// Adds a live entity without components and returns its handle.
    pub fn create_entity(&mut self) -> (e: Entity)
        ensures
            e.id == old(self)@.entities.len(),
            final(self)@ == (WorldModel {
                entities: old(self)@.entities.push(EntityModel::blank(true)),
                ..old(self)@
            }),
            old(self).wf() ==> final(self).wf(),
    {
        let id = self.entities.len();
        self.entities.push(Components::blank(true));
        proof {
            assert(self@.entities =~= old(self)@.entities.push(EntityModel::blank(true)));
            if old(self).wf() {
                assert forall|i: int| 0 <= i < self@.entities.len() implies #[trigger]
                    self@.slot_wf(i) by {
                    if i < id {
                        assert(old(self)@.slot_wf(i));
                    }
                }
            }
        }
        Entity { id }
    }

    /// Adds an entity with the given components and returns its handle.
    pub fn spawn(&mut self, c: Components) -> (e: Entity)
        requires
            old(self).wf(),
            WorldModel::entity_wf(old(self)@.map, c@),
        ensures
            e.id == old(self)@.entities.len(),
            final(self)@ == (WorldModel {
                entities: old(self)@.entities.push(c@),
                ..old(self)@
            }),
            final(self).wf(),
    {
        let id = self.entities.len();
        self.entities.push(c);
        proof {
            assert(self@.entities =~= old(self)@.entities.push(c@));
            assert forall|i: int| 0 <= i < self@.entities.len() implies #[trigger] self@.slot_wf(
                i,
            ) by {
                if i < id {
                    assert(old(self)@.slot_wf(i));
                }
            }
        }
        Entity { id }
    }

    /// Deletes a live entity together with all its components.
    pub fn delete_entity(&mut self, e: Entity) -> (r: Result<(), Fault>)
        ensures
            match old(self)@.delete_entity(e) {
                Ok(m) => r is Ok && final(self)@ == m,
                Err(f) => r == Err::<(), Fault>(f) && *final(self) == *old(self),
            },
            old(self).wf() ==> final(self).wf(),
    {
        if !self.is_alive(e) {
            return Err(Fault::NoSuchEntity);
        }
        self.entities[e.id] = Components::blank(false);
        proof {
            assert(self@.entities =~= old(self)@.entities.update(
                e.id as int,
                EntityModel::blank(false),
            ));
            if old(self).wf() {
                assert forall|i: int| 0 <= i < self@.entities.len() implies #[trigger]
                    self@.slot_wf(i) by {
                    assert(old(self)@.slot_wf(i));
                }
            }
        }
        Ok(())
    }

    /// Carries out the deletions that were put off while the systems ran.
    pub fn maintain(&mut self)
        ensures
            final(self)@ == old(self)@.maintained(),
            old(self).wf() ==> final(self).wf(),
    {
        let n = self.pending_deletions.len();
        let mut k: usize = 0;
        while k < n
            invariant
                k <= n,
                n == self.pending_deletions@.len(),
                self.pending_deletions == old(self).pending_deletions,
                self.map == old(self).map,
                self.player == old(self).player,
                self.player_position == old(self).player_position,
                self.run_state == old(self).run_state,
                self.log == old(self).log,
                self.entities@.len() == old(self).entities@.len(),
                forall|j: int|
                    0 <= j < self.entities@.len() ==> self.entities@[j]@ == (
                    if #[trigger] names_slot(self.pending_deletions@.take(k as int), j) {
                        EntityModel::blank(false)
                    } else {
                        old(self).entities@[j]@
                    }),
            decreases n - k,
        {
            let e = self.pending_deletions[k];
            let ghost prefix = self.pending_deletions@.take(k as int);
            let ghost longer = self.pending_deletions@.take(k + 1);
            if e.id < self.entities.len() {
                self.entities[e.id] = Components::blank(false);
            }
            proof {
                assert(longer =~= prefix.push(e));
                assert forall|j: int| 0 <= j < self.entities@.len() implies #[trigger] names_slot(
                    longer,
                    j,
                ) == (names_slot(prefix, j) || j == e.id) by {
                    let x = Entity { id: j as usize };
                    if prefix.contains(x) {
                        let w = choose|w: int| 0 <= w < prefix.len() && prefix[w] == x;
                        assert(longer[w] == x);
                    }
                    if j == e.id {
                        assert(longer[k as int] == x);
                    }
                }
            }
            k += 1;
        }
        proof {
            assert(self.pending_deletions@.take(k as int) =~= self.pending_deletions@);
        }
        self.pending_deletions.clear();
        proof {
            assert(self@.entities =~= old(self)@.maintained().entities);
            assert(self@.pending_deletions =~= Seq::<Entity>::empty());
            if old(self).wf() {
                assert forall|i: int| 0 <= i < self@.entities.len() implies #[trigger]
                    self@.slot_wf(i) by {
                    assert(old(self)@.slot_wf(i));
                }
            }
        }
    }

    /// Removes every intent of the given kind, whether or not anything
    /// came of it.
    pub fn clear_intents(&mut self, kind: IntentKind)
        ensures
            final(self)@ == without_intents(old(self)@, kind),
            old(self).wf() ==> final(self).wf(),
    {
        let n = self.entities.len();
        let mut k: usize = 0;
        while k < n
            invariant
                k <= n,
                n == self.entities@.len(),
                n == old(self).entities@.len(),
                self.map == old(self).map,
                self.player == old(self).player,
                self.player_position == old(self).player_position,
                self.run_state == old(self).run_state,
                self.log == old(self).log,
                self.pending_deletions == old(self).pending_deletions,
                forall|j: int|
                    0 <= j < k ==> self.entities@[j]@ == without_intent(
                        old(self).entities@[j]@,
                        kind,
                    ),
                forall|j: int| k <= j < n ==> self.entities@[j] == old(self).entities@[j],
            decreases n - k,
        {
            match kind {
                IntentKind::Melee => {
                    self.entities[k].wants_to_melee = None;
                },
                IntentKind::Pickup => {
                    self.entities[k].wants_to_pickup_item = None;
                },
                IntentKind::UseItem => {
                    self.entities[k].wants_to_use_item = None;
                },
                IntentKind::DropItem => {
                    self.entities[k].wants_to_drop_item = None;
                },
            }
            k += 1;
        }
        proof {
            assert(self@.entities =~= without_intents(old(self)@, kind).entities);
            if old(self).wf() {
                assert forall|i: int| 0 <= i < self@.entities.len() implies #[trigger]
                    self@.slot_wf(i) by {
                    assert(old(self)@.slot_wf(i));
                }
            }
        }
    }

    /// Appends a line to the event log.
    pub fn log(&mut self, line: String)
        ensures
            final(self)@ == old(self)@.logged(line@),
            old(self).wf() ==> final(self).wf(),
    {
        self.log.push(line);
        proof {
            assert(self@.entities =~= old(self)@.entities);
            if old(self).wf() {
                assert forall|i: int| 0 <= i < self@.entities.len() implies #[trigger]
                    self@.slot_wf(i) by {
                    assert(old(self)@.slot_wf(i));
                }
            }
        }
    }

    /// Queues damage against `victim`, to be applied when the damage system
    /// next runs.
    pub fn new_damage(&mut self, victim: Entity, amount: i32) -> (r: Result<(), Fault>)
        ensures
            match old(self)@.new_damage(victim, amount) {
                Ok(m) => r is Ok && final(self)@ == m,
                Err(f) => r == Err::<(), Fault>(f) && *final(self) == *old(self),
            },
            old(self).wf() ==> final(self).wf(),
    {
        if !self.is_alive(victim) {
            return Err(Fault::NoSuchEntity);
        }
        match &mut self.entities[victim.id].suffer_damage {
            Some(suffering) => {
                suffering.amount.push(amount);
            },
            None => {
                let mut amounts: Vec<i32> = Vec::new();
                amounts.push(amount);
                self.entities[victim.id].suffer_damage = Some(SufferDamage { amount: amounts });
            },
        }
        proof {
            let m = old(self)@.new_damage(victim, amount).unwrap();
            assert(self@.entities[victim.id as int].suffer_damage.unwrap()
                =~= m.entities[victim.id as int].suffer_damage.unwrap());
            assert(self@.entities =~= m.entities);
            if old(self).wf() {
                assert forall|i: int| 0 <= i < self@.entities.len() implies #[trigger]
                    self@.slot_wf(i) by {
                    assert(old(self)@.slot_wf(i));
                }
            }
        }
        Ok(())
    }
}

} // verus!
