//! Turning intents to attack into queued damage.

use vstd::prelude::*;
use crate::components::Entity;
use crate::text::{hits_line, spec_hits_line, spec_unable_to_hurt_line, unable_to_hurt_line};
use crate::world::{
    fold_slots,
    lemma_fold_fault_sticks,
    without_intents,
    Fault,
    IntentKind,
    Step,
    World,
    WorldModel,
};

verus! {

/// Damage of one blow: the attacker's power less the target's defense, never
/// below zero, and no more than fits 32 bits.
pub open spec fn melee_damage(power: i32, defense: i32) -> i32 {
    if power - defense <= 0 {
        0
    } else if power - defense > i32::MAX {
        i32::MAX
    } else {
        (power - defense) as i32
    }
}

/// What the entity in slot `i` does with its intent to attack, if it has
/// one, a name and hit points left.
pub open spec fn melee_step(m: WorldModel, i: int) -> Step {
    let e = m.entities[i];
    match (e.combat_stats, e.name, e.wants_to_melee) {
        (Some(stats), Some(name), Some(intent)) => {
            if stats.hp <= 0 {
                Ok(m)
            } else if !(intent.target.id < m.entities.len()) {
                Err(Fault::MissingCombatStats)
            } else {
                let t = m.entities[intent.target.id as int];
                match t.combat_stats {
                    None => Err(Fault::MissingCombatStats),
                    Some(target_stats) => {
                        if target_stats.hp <= 0 {
                            Ok(m)
                        } else {
                            match t.name {
                                None => Err(Fault::MissingName),
                                Some(target_name) => {
                                    let damage = melee_damage(stats.power, target_stats.defense);
                                    if damage == 0 {
                                        Ok(m.logged(spec_unable_to_hurt_line(name, target_name)))
                                    } else {
                                        m.logged(
                                            spec_hits_line(name, target_name, damage as int),
                                        ).new_damage(intent.target, damage)
                                    }
                                },
                            }
                        }
                    },
                }
            }
        },
        _ => Ok(m),
    }
}

pub open spec fn melee_stepper() -> spec_fn(WorldModel, int) -> Step {
    |m: WorldModel, i: int| melee_step(m, i)
}

/// The melee system as a whole: every attacker strikes in slot order, then
/// all intents are dropped.
pub open spec fn melee_system(w: WorldModel) -> Step {
    match fold_slots(w, w.entities.len() as int, melee_stepper()) {
        Ok(m) => Ok(without_intents(m, IntentKind::Melee)),
        Err(f) => Err(f),
    }
}

fn damage_of(power: i32, defense: i32) -> (d: i32)
    ensures
        d == melee_damage(power, defense),
{
    let raw: i64 = power as i64 - defense as i64;
    if raw <= 0 {
        0
    } else if raw > i32::MAX as i64 {
        i32::MAX
    } else {
        raw as i32
    }
}

/// Turns intents to attack into queued damage.
pub struct MeleeCombatSystem {}

impl MeleeCombatSystem {
    /// Lets every attacker strike, in slot order, and drops all intents to
    /// attack. Stops at the first fault.
    pub fn run(&mut self, world: &mut World) -> (r: Result<(), Fault>)
        ensures
            match melee_system(old(world)@) {
                Ok(m) => r is Ok && final(world)@ == m,
                Err(f) => r == Err::<(), Fault>(f),
            },
            old(world).wf() ==> final(world).wf(),
    {
        let n = world.entities.len();
        let mut i: usize = 0;
        while i < n
            invariant
                i <= n,
                n == world@.entities.len(),
                n == old(world)@.entities.len(),
                fold_slots(old(world)@, i as int, melee_stepper()) == Ok::<WorldModel, Fault>(world@),
                old(world).wf() ==> world.wf(),
            decreases n - i,
        {
            let ghost before = world@;
            proof {
                assert(fold_slots(old(world)@, i + 1, melee_stepper()) == melee_step(
                    before,
                    i as int,
                ));
            }
            let outcome = Self::strike(world, i);
            match outcome {
                Ok(()) => {},
                Err(f) => {
                    proof {
                        lemma_fold_fault_sticks(old(world)@, i + 1, n as int, melee_stepper());
                    }
                    return Err(f);
                },
            }
            i += 1;
        }
        world.clear_intents(IntentKind::Melee);
        Ok(())
    }

    fn strike(world: &mut World, i: usize) -> (r: Result<(), Fault>)
        requires
            i < old(world).entities@.len(),
        ensures
            match melee_step(old(world)@, i as int) {
                Ok(m) => r is Ok && final(world)@ == m,
                Err(f) => r == Err::<(), Fault>(f),
            },
            final(world)@.entities.len() == old(world)@.entities.len(),
            old(world).wf() ==> final(world).wf(),
    {
        let stats = match world.entities[i].combat_stats {
            Some(s) => s,
            None => {
                return Ok(());
            },
        };
        let target: Entity = match world.entities[i].wants_to_melee {
            Some(intent) => intent.target,
            None => {
                return Ok(());
            },
        };
        if world.entities[i].name.is_none() || stats.hp <= 0 {
            return Ok(());
        }
        if target.id >= world.entities.len() {
            return Err(Fault::MissingCombatStats);
        }
        let target_stats = match world.entities[target.id].combat_stats {
            Some(s) => s,
            None => {
                return Err(Fault::MissingCombatStats);
            },
        };
        if target_stats.hp <= 0 {
            return Ok(());
        }
        let damage = damage_of(stats.power, target_stats.defense);
        let line = match (&world.entities[i].name, &world.entities[target.id].name) {
            (Some(name), Some(target_name)) => {
                if damage == 0 {
                    unable_to_hurt_line(&name.name, &target_name.name)
                } else {
                    hits_line(&name.name, &target_name.name, damage)
                }
            },
            _ => {
                return Err(Fault::MissingName);
            },
        };
        world.log(line);
        if damage == 0 {
            Ok(())
        } else {
            world.new_damage(target, damage)
        }
    }
}

} // verus!
