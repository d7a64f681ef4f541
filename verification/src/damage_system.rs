//! Applying queued damage, and sweeping out whoever it killed.

use vstd::prelude::*;
use crate::components::{CombatStats, EntityModel};
use crate::text::{died_line, spec_died_line, spec_you_are_dead_line, you_are_dead_line};
use crate::world::{World, WorldModel};

verus! {

/// Sum of the queued amounts.
pub open spec fn total(amounts: Seq<i32>) -> int
    decreases amounts.len(),
{
    if amounts.len() == 0 {
        0
    } else {
        total(amounts.drop_last()) + amounts.last()
    }
}

/// The nearest 32-bit value.
pub open spec fn clamp_i32(v: int) -> i32 {
    if v < i32::MIN {
        i32::MIN
    } else if v > i32::MAX {
        i32::MAX
    } else {
        v as i32
    }
}

/// One entity after the damage system: everything queued against it is
/// taken off its hit points at once, and the queue is gone.
pub open spec fn damaged(e: EntityModel) -> EntityModel {
    EntityModel {
        combat_stats: match (e.combat_stats, e.suffer_damage) {
            (Some(s), Some(d)) => Some(CombatStats { hp: clamp_i32(s.hp - total(d)), ..s }),
            _ => e.combat_stats,
        },
        suffer_damage: None,
        ..e
    }
}

pub open spec fn damage_system(w: WorldModel) -> WorldModel {
    WorldModel { entities: Seq::new(w.entities.len(), |i: int| damaged(w.entities[i])), ..w }
}

/// Whether the sweep removes this entity: it has run out of hit points and
/// is not the player.
pub open spec fn dies(e: EntityModel) -> bool {
    &&& e.player is None
    &&& e.combat_stats matches Some(s) && s.hp <= 0
}

/// The lines that the sweep writes for slots `0 .. n`, in slot order.
pub open spec fn death_lines(entities: Seq<EntityModel>, n: int) -> Seq<Seq<char>>
    decreases n,
{
    if n <= 0 {
        Seq::empty()
    } else {
        let e = entities[n - 1];
        let before = death_lines(entities, n - 1);
        match e.combat_stats {
            Some(s) if s.hp <= 0 => {
                if e.player is Some {
                    before.push(spec_you_are_dead_line())
                } else {
                    match e.name {
                        Some(name) => before.push(spec_died_line(name)),
                        None => before,
                    }
                }
            },
            _ => before,
        }
    }
}

/// The world after the sweep of the dead.
pub open spec fn dead_swept(w: WorldModel) -> WorldModel {
    WorldModel {
        entities: Seq::new(
            w.entities.len(),
            |i: int|
                if dies(w.entities[i]) {
                    EntityModel::blank(false)
                } else {
                    w.entities[i]
                },
        ),
        log: w.log + death_lines(w.entities, w.entities.len() as int),
        ..w
    }
}

pub proof fn lemma_total_push(amounts: Seq<i32>, a: i32)
    ensures
        total(amounts.push(a)) == total(amounts) + a,
{
    assert(amounts.push(a).drop_last() =~= amounts);
}

pub proof fn lemma_total_bounds(amounts: Seq<i32>)
    ensures
        -0x8000_0000 * amounts.len() <= total(amounts) <= 0x7fff_ffff * amounts.len(),
    decreases amounts.len(),
{
    if amounts.len() > 0 {
        lemma_total_bounds(amounts.drop_last());
    }
}

fn sum_amounts(amounts: &Vec<i32>) -> (s: i128)
    ensures
        s == total(amounts@),
        -0x8000_0000_0000_0000_0000_0000 <= s <= 0x8000_0000_0000_0000_0000_0000,
{
    proof {
        lemma_total_bounds(amounts@);
    }
    let mut s: i128 = 0;
    let mut i: usize = 0;
    while i < amounts.len()
        invariant
            i <= amounts@.len(),
            s == total(amounts@.take(i as int)),
        decreases amounts@.len() - i,
    {
        proof {
            lemma_total_bounds(amounts@.take(i as int));
            assert(amounts@.take(i + 1) =~= amounts@.take(i as int).push(amounts@[i as int]));
            lemma_total_push(amounts@.take(i as int), amounts@[i as int]);
        }
        s = s + amounts[i] as i128;
        i += 1;
    }
    proof {
        assert(amounts@.take(i as int) =~= amounts@);
    }
    s
}

fn clamp_to_i32(v: i128) -> (r: i32)
    ensures
        r == clamp_i32(v as int),
{
    if v < i32::MIN as i128 {
        i32::MIN
    } else if v > i32::MAX as i128 {
        i32::MAX
    } else {
        v as i32
    }
}

/// Applies the damage that was queued during the turn.
pub struct DamageSystem {}

impl DamageSystem {
    /// Every entity loses the sum of what was queued against it, and every
    /// queue is removed, whether or not its entity has hit points to lose.
    pub fn run(&mut self, world: &mut World)
        ensures
            final(world)@ == damage_system(old(world)@),
            old(world).wf() ==> final(world).wf(),
    {
        let n = world.entities.len();
        let mut i: usize = 0;
        while i < n
            invariant
                i <= n,
                n == world.entities@.len(),
                n == old(world).entities@.len(),
                world.map == old(world).map,
                world.player == old(world).player,
                world.player_position == old(world).player_position,
                world.run_state == old(world).run_state,
                world.log == old(world).log,
                world.pending_deletions == old(world).pending_deletions,
                forall|j: int| 0 <= j < i ==> world.entities@[j]@ == damaged(old(world).entities@[j]@),
                forall|j: int| i <= j < n ==> world.entities@[j] == old(world).entities@[j],
            decreases n - i,
        {
            let hurt: Option<i128> = match &world.entities[i].suffer_damage {
                Some(d) => Some(sum_amounts(&d.amount)),
                None => None,
            };
            match hurt {
                Some(sum) => {
                    match &mut world.entities[i].combat_stats {
                        Some(stats) => {
                            stats.hp = clamp_to_i32(stats.hp as i128 - sum);
                        },
                        None => {},
                    }
                },
                None => {},
            }
            world.entities[i].suffer_damage = None;
            i += 1;
        }
        proof {
            let m = damage_system(old(world)@);
            assert(world@.entities =~= m.entities);
            if old(world).wf() {
                assert forall|j: int| 0 <= j < n implies #[trigger] world@.slot_wf(j) by {
                    assert(old(world)@.slot_wf(j));
                }
            }
        }
    }
}

/// Removes every entity that has run out of hit points, except the player,
/// whose death is only announced.
pub fn delete_the_dead(ecs: &mut World)
    ensures
        final(ecs)@ == dead_swept(old(ecs)@),
        old(ecs).wf() ==> final(ecs).wf(),
{
    let n = ecs.entities.len();
    let mut i: usize = 0;
    while i < n
        invariant
            i <= n,
            n == ecs.entities@.len(),
            n == old(ecs).entities@.len(),
            ecs.map == old(ecs).map,
            ecs.player == old(ecs).player,
            ecs.player_position == old(ecs).player_position,
            ecs.run_state == old(ecs).run_state,
            ecs.pending_deletions == old(ecs).pending_deletions,
            ecs.log@ == old(ecs).log@ + death_lines(old(ecs)@.entities, i as int),
            forall|j: int|
                0 <= j < i ==> ecs.entities@[j]@ == (if dies(old(ecs).entities@[j]@) {
                    EntityModel::blank(false)
                } else {
                    old(ecs).entities@[j]@
                }),
            forall|j: int| i <= j < n ==> ecs.entities@[j] == old(ecs).entities@[j],
        decreases n - i,
    {
        let ghost before = ecs.log@;
        let ghost lines = death_lines(old(ecs)@.entities, i as int);
        let dead = match ecs.entities[i].combat_stats {
            Some(stats) => stats.hp <= 0,
            None => false,
        };
        if dead {
            if ecs.entities[i].player.is_some() {
                ecs.log.push(you_are_dead_line());
                proof {
                    assert(ecs.log@ =~= old(ecs).log@ + lines.push(spec_you_are_dead_line()));
                }
            } else {
                match &ecs.entities[i].name {
                    Some(name) => {
                        let line = died_line(&name.name);
                        ecs.log.push(line);
                        proof {
                            assert(ecs.log@ =~= old(ecs).log@ + lines.push(
                                spec_died_line(name.name@),
                            ));
                        }
                    },
                    None => {},
                }
                ecs.entities[i] = crate::components::Components::blank(false);
            }
        }
        i += 1;
    }
    proof {
        let m = dead_swept(old(ecs)@);
        assert(ecs@.entities =~= m.entities);
        if old(ecs).wf() {
            assert forall|j: int| 0 <= j < n implies #[trigger] ecs@.slot_wf(j) by {
                assert(old(ecs)@.slot_wf(j));
            }
        }
    }
}

} // verus!
