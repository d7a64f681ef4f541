//! Picking items up and dropping them.

use vstd::prelude::*;
use crate::components::{EntityModel, InBackpack};
use crate::text::{drop_line, pick_up_line, spec_drop_line, spec_pick_up_line};
use crate::world::{
    fold_slots,
    lemma_fold_fault_sticks,
    without_intents,
    Fault,
    IntentKind,
    Step,
    World,
    WorldModel,
};

verus! {

/// What the entity in slot `i` does with its intent to pick something up:
/// the item leaves the ground for the collector's backpack, and the player
/// is told if the player is the collector.
pub open spec fn collect_step(m: WorldModel, i: int) -> Step {
    match m.entities[i].wants_to_pickup_item {
        None => Ok(m),
        Some(want) => {
            if !m.is_alive(want.item) {
                Err(Fault::NoSuchEntity)
            } else {
                let item = m.entities[want.item.id as int];
                let stowed = m.with_entity(
                    want.item.id as int,
                    EntityModel {
                        position: None,
                        in_backpack: Some(InBackpack { owner: want.collected_by }),
                        ..item
                    },
                );
                if want.collected_by == m.player {
                    match item.name {
                        None => Err(Fault::MissingName),
                        Some(name) => Ok(stowed.logged(spec_pick_up_line(name))),
                    }
                } else {
                    Ok(stowed)
                }
            }
        },
    }
}

pub open spec fn collect_stepper() -> spec_fn(WorldModel, int) -> Step {
    |m: WorldModel, i: int| collect_step(m, i)
}

/// The collection system as a whole: every pickup happens, in slot order,
/// then all pickup intents are dropped.
pub open spec fn item_collection_system(w: WorldModel) -> Step {
    match fold_slots(w, w.entities.len() as int, collect_stepper()) {
        Ok(m) => Ok(without_intents(m, IntentKind::Pickup)),
        Err(f) => Err(f),
    }
}

/// What the entity in slot `i` does with its intent to drop something: the
/// item leaves its backpack for the tile on which the dropper stands.
pub open spec fn drop_step(m: WorldModel, i: int) -> Step {
    let e = m.entities[i];
    match e.wants_to_drop_item {
        None => Ok(m),
        Some(want) => match e.position {
            None => Err(Fault::MissingPosition),
            Some(p) => {
                if !m.is_alive(want.item) {
                    Err(Fault::NoSuchEntity)
                } else {
                    let item = m.entities[want.item.id as int];
                    let dropped = m.with_entity(
                        want.item.id as int,
                        EntityModel { position: Some(p), in_backpack: None, ..item },
                    );
                    if m.player.id == i {
                        match item.name {
                            None => Err(Fault::MissingName),
                            Some(name) => Ok(dropped.logged(spec_drop_line(name))),
                        }
                    } else {
                        Ok(dropped)
                    }
                }
            },
        },
    }
}

pub open spec fn drop_stepper() -> spec_fn(WorldModel, int) -> Step {
    |m: WorldModel, i: int| drop_step(m, i)
}

/// The drop system as a whole.
pub open spec fn item_drop_system(w: WorldModel) -> Step {
    match fold_slots(w, w.entities.len() as int, drop_stepper()) {
        Ok(m) => Ok(without_intents(m, IntentKind::DropItem)),
        Err(f) => Err(f),
    }
}

/// Moves items from the ground into backpacks.
pub struct ItemCollectionSystem {}

impl ItemCollectionSystem {
    /// Carries out every pickup, in slot order, and drops all intents to
    /// pick up. Stops at the first fault.
    pub fn run(&mut self, world: &mut World) -> (r: Result<(), Fault>)
        ensures
            match item_collection_system(old(world)@) {
                Ok(m) => r is Ok && final(world)@ == m,
                Err(f) => r == Err::<(), Fault>(f),
            },
            old(world).wf() ==> final(world).wf(),
    {
        let n = world.entities.len();
        let mut i: usize = 0;
        while i < n
            invariant
                i <= n,
                n == world@.entities.len(),
                n == old(world)@.entities.len(),
                fold_slots(old(world)@, i as int, collect_stepper()) == Ok::<WorldModel, Fault>(
                    world@,
                ),
                old(world).wf() ==> world.wf(),
            decreases n - i,
        {
            proof {
                assert(fold_slots(old(world)@, i + 1, collect_stepper()) == collect_step(
                    world@,
                    i as int,
                ));
            }
            match Self::collect(world, i) {
                Ok(()) => {},
                Err(f) => {
                    proof {
                        lemma_fold_fault_sticks(old(world)@, i + 1, n as int, collect_stepper());
                    }
                    return Err(f);
                },
            }
            i += 1;
        }
        world.clear_intents(IntentKind::Pickup);
        Ok(())
    }

    fn collect(world: &mut World, i: usize) -> (r: Result<(), Fault>)
        requires
            i < old(world)@.entities.len(),
        ensures
            match collect_step(old(world)@, i as int) {
                Ok(m) => r is Ok && final(world)@ == m,
                Err(f) => r == Err::<(), Fault>(f),
            },
            final(world)@.entities.len() == old(world)@.entities.len(),
            old(world).wf() ==> final(world).wf(),
    {
        let want = match world.entities[i].wants_to_pickup_item {
            Some(w) => w,
            None => {
                return Ok(());
            },
        };
        if !world.is_alive(want.item) {
            return Err(Fault::NoSuchEntity);
        }
        world.entities[want.item.id].position = None;
        world.entities[want.item.id].in_backpack = Some(InBackpack { owner: want.collected_by });
        let ghost stowed = world@;
        proof {
            let item = old(world)@.entities[want.item.id as int];
            let expect = old(world)@.with_entity(
                want.item.id as int,
                EntityModel {
                    position: None,
                    in_backpack: Some(InBackpack { owner: want.collected_by }),
                    ..item
                },
            );
            assert(world@.entities =~= expect.entities);
            if old(world).wf() {
                assert forall|j: int| 0 <= j < world@.entities.len() implies #[trigger]
                    world@.slot_wf(j) by {
                    assert(old(world)@.slot_wf(j));
                }
            }
        }
        if want.collected_by == world.player {
            let line = match &world.entities[want.item.id].name {
                Some(name) => pick_up_line(&name.name),
                None => {
                    return Err(Fault::MissingName);
                },
            };
            world.log(line);
        }
        Ok(())
    }
}

/// Moves items from backpacks onto the ground.
pub struct ItemDropSystem {}

impl ItemDropSystem {
    /// Carries out every drop, in slot order, and drops all intents to
    /// drop. Stops at the first fault.
    pub fn run(&mut self, world: &mut World) -> (r: Result<(), Fault>)
        ensures
            match item_drop_system(old(world)@) {
                Ok(m) => r is Ok && final(world)@ == m,
                Err(f) => r == Err::<(), Fault>(f),
            },
            old(world).wf() ==> final(world).wf(),
    {
        let n = world.entities.len();
        let mut i: usize = 0;
        while i < n
            invariant
                i <= n,
                n == world@.entities.len(),
                n == old(world)@.entities.len(),
                fold_slots(old(world)@, i as int, drop_stepper()) == Ok::<WorldModel, Fault>(
                    world@,
                ),
                old(world).wf() ==> world.wf(),
            decreases n - i,
        {
            proof {
                assert(fold_slots(old(world)@, i + 1, drop_stepper()) == drop_step(
                    world@,
                    i as int,
                ));
            }
            match Self::drop_item(world, i) {
                Ok(()) => {},
                Err(f) => {
                    proof {
                        lemma_fold_fault_sticks(old(world)@, i + 1, n as int, drop_stepper());
                    }
                    return Err(f);
                },
            }
            i += 1;
        }
        world.clear_intents(IntentKind::DropItem);
        Ok(())
    }

    fn drop_item(world: &mut World, i: usize) -> (r: Result<(), Fault>)
        requires
            i < old(world)@.entities.len(),
        ensures
            match drop_step(old(world)@, i as int) {
                Ok(m) => r is Ok && final(world)@ == m,
                Err(f) => r == Err::<(), Fault>(f),
            },
            final(world)@.entities.len() == old(world)@.entities.len(),
            old(world).wf() ==> final(world).wf(),
    {
        let want = match world.entities[i].wants_to_drop_item {
            Some(w) => w,
            None => {
                return Ok(());
            },
        };
        let p = match world.entities[i].position {
            Some(p) => p,
            None => {
                return Err(Fault::MissingPosition);
            },
        };
        if !world.is_alive(want.item) {
            return Err(Fault::NoSuchEntity);
        }
        world.entities[want.item.id].position = Some(p);
        world.entities[want.item.id].in_backpack = None;
        proof {
            let item = old(world)@.entities[want.item.id as int];
            let expect = old(world)@.with_entity(
                want.item.id as int,
                EntityModel { position: Some(p), in_backpack: None, ..item },
            );
            assert(world@.entities =~= expect.entities);
            if old(world).wf() {
                assert(old(world)@.slot_wf(i as int));
                assert forall|j: int| 0 <= j < world@.entities.len() implies #[trigger]
                    world@.slot_wf(j) by {
                    assert(old(world)@.slot_wf(j));
                }
            }
        }
        if world.player.id == i {
            let line = match &world.entities[want.item.id].name {
                Some(name) => drop_line(&name.name),
                None => {
                    return Err(Fault::MissingName);
                },
            };
            world.log(line);
        }
        Ok(())
    }
}

} // verus!
