//! Using items: who is affected, what each capability of the item does to
//! them, and when the item is used up.

use vstd::prelude::*;
use crate::components::{CombatStats, Confusion, Entity, EntityModel};
use crate::damage_system::clamp_i32;
use crate::fov::{field_of_view, is_field_of_view};
use crate::geometry::Coord;
use crate::map::{GameMap, MapModel};
use crate::text::{
    confuse_line,
    drink_line,
    inflict_line,
    spec_confuse_line,
    spec_drink_line,
    spec_inflict_line,
};
use crate::world::{
    fold_slots,
    lemma_fold_fault_sticks,
    without_intents,
    Fault,
    IntentKind,
    Step,
    World,
    WorldModel,
};

verus! {

/// One thing that an item does to each of its targets.
#[derive(Clone, Copy, Debug, PartialEq, Eq, Structural)]
pub enum Effect {
    Heal(i32),
    Harm(i32),
    Confuse(i32),
}

/// The world part-way through the use of an item, with whether any effect
/// has taken hold so far.
pub struct Usage {
    pub world: WorldModel,
    pub used: bool,
}

pub type UseStep = Result<Usage, Fault>;

/// Everyone standing on `tiles`, tile by tile in the order given.
pub open spec fn occupants(map: MapModel, tiles: Seq<Coord>) -> Seq<Entity>
    decreases tiles.len(),
{
    if tiles.len() == 0 {
        Seq::empty()
    } else {
        occupants(map, tiles.drop_last()) + map.tile_contents[map.idx(
            tiles.last().x as int,
            tiles.last().y as int,
        )]
    }
}

/// The components of `item`, or none at all if there is no such slot.
pub open spec fn item_of(m: WorldModel, item: Entity) -> EntityModel {
    if item.id < m.entities.len() {
        m.entities[item.id as int]
    } else {
        EntityModel::blank(false)
    }
}

/// The tiles that an item used from slot `i` reaches when its area of
/// effect is `blast`: the part of the blast that is off the level's
/// outermost ring.
pub open spec fn blast_tiles(m: WorldModel, blast: Seq<Coord>) -> Seq<Coord> {
    m.map.kept(blast, true)
}

/// Who is affected when slot `i` uses its item. Without a target point
/// that is the user. With one it is whoever stands on that tile, or, for
/// an item with an area of effect, on any tile of the blast.
pub open spec fn use_targets(m: WorldModel, i: int, blast: Seq<Coord>) -> Seq<Entity> {
    let want = m.entities[i].wants_to_use_item.unwrap();
    match want.target {
        None => seq![Entity { id: i as usize }],
        Some(t) => if item_of(m, want.item).area_of_effect is Some {
            occupants(m.map, blast_tiles(m, blast))
        } else {
            m.map.tile_contents[m.map.idx(t.x as int, t.y as int)]
        },
    }
}

/// Hit points after healing by `amount`: never above the maximum.
pub open spec fn healed(stats: CombatStats, amount: i32) -> CombatStats {
    CombatStats {
        hp: clamp_i32(
            if stats.hp + amount < stats.max_hp {
                stats.hp + amount
            } else {
                stats.max_hp as int
            },
        ),
        ..stats
    }
}

/// The name of `t`, if it has one.
pub open spec fn name_of(m: WorldModel, t: Entity) -> Option<Seq<char>> {
    if t.id < m.entities.len() {
        m.entities[t.id as int].name
    } else {
        None
    }
}

/// One effect on one target. Healing takes hold on targets that have hit
/// points, and passes over the others. Harm is queued against any target.
/// Confusion is put on any target. With `announce` set, each effect that
/// takes hold is written to the log, for which the names have to be there.
pub open spec fn apply_one(
    u: Usage,
    t: Entity,
    effect: Effect,
    announce: bool,
    item_name: Option<Seq<char>>,
) -> UseStep {
    let w = u.world;
    match effect {
        Effect::Heal(amount) => {
            if t.id < w.entities.len() && w.entities[t.id as int].combat_stats is Some {
                let e = w.entities[t.id as int];
                let w1 = w.with_entity(
                    t.id as int,
                    EntityModel {
                        combat_stats: Some(healed(e.combat_stats.unwrap(), amount)),
                        ..e
                    },
                );
                if announce {
                    match item_name {
                        None => Err(Fault::MissingName),
                        Some(n) => Ok(
                            Usage { world: w1.logged(spec_drink_line(n, amount as int)), used: true },
                        ),
                    }
                } else {
                    Ok(Usage { world: w1, used: true })
                }
            } else {
                Ok(u)
            }
        },
        Effect::Harm(amount) => {
            match w.new_damage(t, amount) {
                Err(f) => Err(f),
                Ok(w1) => {
                    if announce {
                        match (name_of(w1, t), item_name) {
                            (Some(tn), Some(n)) => Ok(
                                Usage {
                                    world: w1.logged(spec_inflict_line(n, tn, amount as int)),
                                    used: true,
                                },
                            ),
                            _ => Err(Fault::MissingName),
                        }
                    } else {
                        Ok(Usage { world: w1, used: true })
                    }
                },
            }
        },
        Effect::Confuse(turns) => {
            if announce && (name_of(w, t) is None || item_name is None) {
                Err(Fault::MissingName)
            } else if !w.is_alive(t) {
                Err(Fault::NoSuchEntity)
            } else {
                let w1 = if announce {
                    w.logged(spec_confuse_line(item_name.unwrap(), name_of(w, t).unwrap()))
                } else {
                    w
                };
                Ok(
                    Usage {
                        world: w1.with_entity(
                            t.id as int,
                            EntityModel {
                                confusion: Some(Confusion { turns }),
                                ..w1.entities[t.id as int]
                            },
                        ),
                        used: true,
                    },
                )
            }
        },
    }
}

/// One effect on the first `k` targets, in order.
pub open spec fn apply_all(
    u: Usage,
    targets: Seq<Entity>,
    k: int,
    effect: Effect,
    announce: bool,
    item_name: Option<Seq<char>>,
) -> UseStep
    decreases k,
{
    if k <= 0 {
        Ok(u)
    } else {
        match apply_all(u, targets, k - 1, effect, announce, item_name) {
            Ok(v) => apply_one(v, targets[k - 1], effect, announce, item_name),
            Err(f) => Err(f),
        }
    }
}

/// An effect that the item may or may not have, on all targets.
pub open spec fn apply_if(
    r: UseStep,
    effect: Option<Effect>,
    targets: Seq<Entity>,
    announce: bool,
    item_name: Option<Seq<char>>,
) -> UseStep {
    match (r, effect) {
        (Ok(u), Some(e)) => apply_all(u, targets, targets.len() as int, e, announce, item_name),
        _ => r,
    }
}

pub open spec fn heal_effect(it: EntityModel) -> Option<Effect> {
    match it.provides_healing {
        Some(h) => Some(Effect::Heal(h.heal_amount)),
        None => None,
    }
}

pub open spec fn harm_effect(it: EntityModel) -> Option<Effect> {
    match it.inflicts_damage {
        Some(d) => Some(Effect::Harm(d.damage)),
        None => None,
    }
}

pub open spec fn confuse_effect(it: EntityModel) -> Option<Effect> {
    match it.confusion {
        Some(c) => Some(Effect::Confuse(c.turns)),
        None => None,
    }
}

/// The item's healing, harm and confusion, applied in that order, each
/// to every target.
pub open spec fn effects_applied(
    m: WorldModel,
    it: EntityModel,
    targets: Seq<Entity>,
    announce: bool,
) -> UseStep {
    let start: UseStep = Ok(Usage { world: m, used: false });
    let healing = apply_if(start, heal_effect(it), targets, announce, it.name);
    let harming = apply_if(healing, harm_effect(it), targets, announce, it.name);
    apply_if(harming, confuse_effect(it), targets, announce, it.name)
}

/// The end of a use: an item that took hold on anyone, and is a
/// consumable, is marked for deletion.
pub open spec fn consumed(r: UseStep, it: EntityModel, item: Entity) -> Step {
    match r {
        Err(f) => Err(f),
        Ok(u) => {
            if u.used && it.consumable is Some {
                if !u.world.is_alive(item) {
                    Err(Fault::NoSuchEntity)
                } else {
                    Ok(
                        WorldModel {
                            pending_deletions: u.world.pending_deletions.push(item),
                            ..u.world
                        },
                    )
                }
            } else {
                Ok(u.world)
            }
        },
    }
}

/// What the entity in slot `i` does with its intent to use an item, when
/// `blast` is the field of view from the target point out to the item's
/// radius.
pub open spec fn use_step(m: WorldModel, i: int, blast: Seq<Coord>) -> Step {
    match m.entities[i].wants_to_use_item {
        None => Ok(m),
        Some(want) => {
            let it = item_of(m, want.item);
            consumed(
                effects_applied(m, it, use_targets(m, i, blast), m.player.id == i),
                it,
                want.item,
            )
        },
    }
}

/// The blast for slot `i`, or no tiles if none was supplied.
pub open spec fn blast_at(blasts: Seq<Seq<Coord>>, i: int) -> Seq<Coord> {
    if 0 <= i < blasts.len() {
        blasts[i]
    } else {
        Seq::empty()
    }
}

pub open spec fn use_stepper(blasts: Seq<Seq<Coord>>) -> spec_fn(WorldModel, int) -> Step {
    |m: WorldModel, i: int| use_step(m, i, blast_at(blasts, i))
}

/// The item-use system as a whole, given the blast of each slot's item.
pub open spec fn item_use_system(w: WorldModel, blasts: Seq<Seq<Coord>>) -> Step {
    match fold_slots(w, w.entities.len() as int, use_stepper(blasts)) {
        Ok(m) => Ok(without_intents(m, IntentKind::UseItem)),
        Err(f) => Err(f),
    }
}

/// Whether slot `i` is about to use an item with an area of effect on a
/// target point, and so needs a blast.
pub open spec fn needs_blast(w: WorldModel, i: int) -> bool {
    &&& w.entities[i].wants_to_use_item matches Some(want)
    &&& want.target is Some
    &&& item_of(w, want.item).area_of_effect is Some
}

/// Whether `blasts` holds, for every slot of `w` that needs one, the field
/// of view from its target point out to its item's radius.
pub open spec fn blasts_fit(w: WorldModel, blasts: Seq<Seq<Coord>>) -> bool {
    &&& blasts.len() == w.entities.len()
    &&& forall|i: int|
        0 <= i < w.entities.len() && #[trigger] needs_blast(w, i) ==> is_field_of_view(
            w.map,
            w.entities[i].wants_to_use_item.unwrap().target.unwrap(),
            item_of(w, w.entities[i].wants_to_use_item.unwrap().item).area_of_effect.unwrap().radius,
            blasts[i],
        )
}

pub open spec fn blast_models(blasts: Seq<Vec<Coord>>) -> Seq<Seq<Coord>> {
    Seq::new(blasts.len(), |i: int| blasts[i]@)
}

fn occupants_of(map: &GameMap, tiles: &Vec<Coord>) -> (found: Vec<Entity>)
    requires
        map.wf(),
        forall|i: int| 0 <= i < tiles@.len() ==> map@.in_bounds(tiles@[i].x as int, tiles@[i].y as int),
    ensures
        found@ == occupants(map@, tiles@),
{
    let mut found: Vec<Entity> = Vec::new();
    let mut i: usize = 0;
    while i < tiles.len()
        invariant
            i <= tiles@.len(),
            map.wf(),
            forall|j: int|
                0 <= j < tiles@.len() ==> map@.in_bounds(tiles@[j].x as int, tiles@[j].y as int),
            found@ == occupants(map@, tiles@.take(i as int)),
        decreases tiles@.len() - i,
    {
        let t = tiles[i];
        let index = map.xy_idx(t.x, t.y);
        let here = &map.tile_contents[index];
        let ghost before = found@;
        let mut k: usize = 0;
        while k < here.len()
            invariant
                k <= here@.len(),
                found@ == before + here@.take(k as int),
            decreases here@.len() - k,
        {
            found.push(here[k]);
            proof {
                assert(here@.take(k + 1) =~= here@.take(k as int).push(here@[k as int]));
                assert(found@ =~= before + here@.take(k + 1));
            }
            k += 1;
        }
        proof {
            assert(here@.take(k as int) =~= here@);
            assert(tiles@.take(i + 1).drop_last() =~= tiles@.take(i as int));
            assert(map@.tile_contents[index as int] == here@);
        }
        i += 1;
    }
    proof {
        assert(tiles@.take(i as int) =~= tiles@);
    }
    found
}

fn copy_entities(list: &Vec<Entity>) -> (copy: Vec<Entity>)
    ensures
        copy@ == list@,
{
    let mut copy: Vec<Entity> = Vec::new();
    let mut k: usize = 0;
    while k < list.len()
        invariant
            k <= list@.len(),
            copy@ == list@.take(k as int),
        decreases list@.len() - k,
    {
        copy.push(list[k]);
        proof {
            assert(list@.take(k + 1) =~= list@.take(k as int).push(list@[k as int]));
        }
        k += 1;
    }
    proof {
        assert(list@.take(k as int) =~= list@);
    }
    copy
}

fn heal_points(stats: CombatStats, amount: i32) -> (r: CombatStats)
    ensures
        r == healed(stats, amount),
{
    let sum: i64 = stats.hp as i64 + amount as i64;
    let capped: i64 = if sum < stats.max_hp as i64 {
        sum
    } else {
        stats.max_hp as i64
    };
    let hp: i32 = if capped < i32::MIN as i64 {
        i32::MIN
    } else if capped > i32::MAX as i64 {
        i32::MAX
    } else {
        capped as i32
    };
    CombatStats { max_hp: stats.max_hp, hp, defense: stats.defense, power: stats.power }
}

pub open spec fn option_text(name: Option<String>) -> Option<Seq<char>> {
    match name {
        Some(n) => Some(n@),
        None => None,
    }
}

/// What the item-use system reads off an item before it applies it.
struct ItemTraits {
    heal: Option<Effect>,
    harm: Option<Effect>,
    confuse: Option<Effect>,
    consumable: bool,
    name: Option<String>,
}

/// Uses items on whoever they are aimed at.
pub struct ItemUseSystem {}

impl ItemUseSystem {
    fn apply_to(
        world: &mut World,
        t: Entity,
        effect: Effect,
        announce: bool,
        item_name: &Option<String>,
        used: bool,
    ) -> (r: Result<bool, Fault>)
        ensures
            match apply_one(
                Usage { world: old(world)@, used },
                t,
                effect,
                announce,
                option_text(*item_name),
            ) {
                Ok(u) => r == Ok::<bool, Fault>(u.used) && final(world)@ == u.world,
                Err(f) => r == Err::<bool, Fault>(f),
            },
            final(world)@.entities.len() == old(world)@.entities.len(),
            old(world).wf() ==> final(world).wf(),
    {
        match effect {
            Effect::Heal(amount) => {
                if t.id >= world.entities.len() {
                    return Ok(used);
                }
                let stats = match world.entities[t.id].combat_stats {
                    Some(s) => s,
                    None => {
                        return Ok(used);
                    },
                };
                world.entities[t.id].combat_stats = Some(heal_points(stats, amount));
                proof {
                    let e = old(world)@.entities[t.id as int];
                    let w1 = old(world)@.with_entity(
                        t.id as int,
                        EntityModel { combat_stats: Some(healed(stats, amount)), ..e },
                    );
                    assert(world@.entities =~= w1.entities);
                    if old(world).wf() {
                        assert forall|j: int| 0 <= j < world@.entities.len() implies #[trigger]
                            world@.slot_wf(j) by {
                            assert(old(world)@.slot_wf(j));
                        }
                    }
                }
                if announce {
                    let line = match item_name {
                        Some(n) => drink_line(n, amount),
                        None => {
                            return Err(Fault::MissingName);
                        },
                    };
                    world.log(line);
                }
                Ok(true)
            },
            Effect::Harm(amount) => {
                match world.new_damage(t, amount) {
                    Ok(()) => {},
                    Err(f) => {
                        return Err(f);
                    },
                }
                if announce {
                    let line = match (&world.entities[t.id].name, item_name) {
                        (Some(tn), Some(n)) => inflict_line(n, &tn.name, amount),
                        _ => {
                            return Err(Fault::MissingName);
                        },
                    };
                    world.log(line);
                }
                Ok(true)
            },
            Effect::Confuse(turns) => {
                if announce {
                    if t.id >= world.entities.len() {
                        return Err(Fault::MissingName);
                    }
                    let line = match (&world.entities[t.id].name, item_name) {
                        (Some(tn), Some(n)) => confuse_line(n, &tn.name),
                        _ => {
                            return Err(Fault::MissingName);
                        },
                    };
                    if !world.is_alive(t) {
                        return Err(Fault::NoSuchEntity);
                    }
                    world.log(line);
                } else if !world.is_alive(t) {
                    return Err(Fault::NoSuchEntity);
                }
                let ghost logged = world@;
                world.entities[t.id].confusion = Some(Confusion { turns });
                proof {
                    let w2 = logged.with_entity(
                        t.id as int,
                        EntityModel {
                            confusion: Some(Confusion { turns }),
                            ..logged.entities[t.id as int]
                        },
                    );
                    assert(world@.entities =~= w2.entities);
                    if old(world).wf() {
                        assert forall|j: int| 0 <= j < world@.entities.len() implies #[trigger]
                            world@.slot_wf(j) by {
                            assert(logged.slot_wf(j));
                        }
                    }
                }
                Ok(true)
            },
        }
    }

    fn apply_effect(
        world: &mut World,
        targets: &Vec<Entity>,
        effect: Option<Effect>,
        announce: bool,
        item_name: &Option<String>,
        used: bool,
    ) -> (r: Result<bool, Fault>)
        ensures
            match apply_if(
                Ok(Usage { world: old(world)@, used }),
                effect,
                targets@,
                announce,
                option_text(*item_name),
            ) {
                Ok(u) => r == Ok::<bool, Fault>(u.used) && final(world)@ == u.world,
                Err(f) => r == Err::<bool, Fault>(f),
            },
            final(world)@.entities.len() == old(world)@.entities.len(),
            old(world).wf() ==> final(world).wf(),
    {
        let e = match effect {
            Some(e) => e,
            None => {
                return Ok(used);
            },
        };
        let ghost u0 = Usage { world: old(world)@, used };
        let ghost name = option_text(*item_name);
        let mut any = used;
        let mut k: usize = 0;
        while k < targets.len()
            invariant
                k <= targets@.len(),
                world@.entities.len() == old(world)@.entities.len(),
                old(world).wf() ==> world.wf(),
                name == option_text(*item_name),
                u0 == (Usage { world: old(world)@, used }),
                effect == Some(e),
                apply_all(u0, targets@, k as int, e, announce, name) == Ok::<Usage, Fault>(
                    Usage { world: world@, used: any },
                ),
            decreases targets@.len() - k,
        {
            proof {
                assert(apply_all(u0, targets@, k + 1, e, announce, name) == apply_one(
                    Usage { world: world@, used: any },
                    targets@[k as int],
                    e,
                    announce,
                    name,
                ));
            }
            match Self::apply_to(world, targets[k], e, announce, item_name, any) {
                Ok(now) => {
                    any = now;
                },
                Err(f) => {
                    proof {
                        lemma_apply_fault_sticks(
                            u0,
                            targets@,
                            k + 1,
                            targets@.len() as int,
                            e,
                            announce,
                            name,
                        );
                    }
                    return Err(f);
                },
            }
            k += 1;
        }
        Ok(any)
    }

    fn read_item(world: &World, item: Entity) -> (traits: ItemTraits)
        ensures
            traits.heal == heal_effect(item_of(world@, item)),
            traits.harm == harm_effect(item_of(world@, item)),
            traits.confuse == confuse_effect(item_of(world@, item)),
            traits.consumable == (item_of(world@, item).consumable is Some),
            option_text(traits.name) == item_of(world@, item).name,
    {
        if item.id >= world.entities.len() {
            return ItemTraits {
                heal: None,
                harm: None,
                confuse: None,
                consumable: false,
                name: None,
            };
        }
        let it = &world.entities[item.id];
        ItemTraits {
            heal: match it.provides_healing {
                Some(h) => Some(Effect::Heal(h.heal_amount)),
                None => None,
            },
            harm: match it.inflicts_damage {
                Some(d) => Some(Effect::Harm(d.damage)),
                None => None,
            },
            confuse: match it.confusion {
                Some(c) => Some(Effect::Confuse(c.turns)),
                None => None,
            },
            consumable: it.consumable.is_some(),
            name: match &it.name {
                Some(n) => Some(n.name.clone()),
                None => None,
            },
        }
    }

    fn targets_of(world: &World, i: usize, blast: &Vec<Coord>) -> (targets: Vec<Entity>)
        requires
            world.wf(),
            i < world@.entities.len(),
            world@.entities[i as int].wants_to_use_item is Some,
        ensures
            targets@ == use_targets(world@, i as int, blast@),
    {
        proof {
            assert(world@.slot_wf(i as int));
        }
        let want = match world.entities[i].wants_to_use_item {
            Some(w) => w,
            None => {
                return Vec::new();
            },
        };
        match want.target {
            None => {
                let mut only: Vec<Entity> = Vec::new();
                only.push(Entity { id: i });
                proof {
                    assert(only@ =~= seq![Entity { id: i }]);
                }
                only
            },
            Some(t) => {
                let area = want.item.id < world.entities.len()
                    && world.entities[want.item.id].area_of_effect.is_some();
                if area {
                    let tiles = world.map.retain_tiles(blast, true);
                    occupants_of(&world.map, &tiles)
                } else {
                    let index = world.map.xy_idx(t.x, t.y);
                    copy_entities(&world.map.tile_contents[index])
                }
            },
        }
    }

    fn apply_effects(
        world: &mut World,
        targets: &Vec<Entity>,
        traits: &ItemTraits,
        announce: bool,
    ) -> (r: Result<bool, Fault>)
        ensures
            ({
                let name = option_text(traits.name);
                let start: UseStep = Ok(Usage { world: old(world)@, used: false });
                let healing = apply_if(start, traits.heal, targets@, announce, name);
                let harming = apply_if(healing, traits.harm, targets@, announce, name);
                match apply_if(harming, traits.confuse, targets@, announce, name) {
                    Ok(u) => r == Ok::<bool, Fault>(u.used) && final(world)@ == u.world,
                    Err(f) => r == Err::<bool, Fault>(f),
                }
            }),
            final(world)@.entities.len() == old(world)@.entities.len(),
            old(world).wf() ==> final(world).wf(),
    {
        let used = match Self::apply_effect(
            world,
            targets,
            traits.heal,
            announce,
            &traits.name,
            false,
        ) {
            Ok(u) => u,
            Err(f) => {
                return Err(f);
            },
        };
        let used = match Self::apply_effect(
            world,
            targets,
            traits.harm,
            announce,
            &traits.name,
            used,
        ) {
            Ok(u) => u,
            Err(f) => {
                return Err(f);
            },
        };
        Self::apply_effect(world, targets, traits.confuse, announce, &traits.name, used)
    }

    /// Carries out the intent of the entity in slot `i` to use an item,
    /// if it has one. `blast` is consulted only for an item with an area of
    /// effect that is aimed at a point.
    pub fn use_item(world: &mut World, i: usize, blast: &Vec<Coord>) -> (r: Result<(), Fault>)
        requires
            old(world).wf(),
            i < old(world)@.entities.len(),
        ensures
            match use_step(old(world)@, i as int, blast@) {
                Ok(m) => r is Ok && final(world)@ == m,
                Err(f) => r == Err::<(), Fault>(f),
            },
            final(world)@.entities.len() == old(world)@.entities.len(),
            final(world).wf(),
    {
        let want = match world.entities[i].wants_to_use_item {
            Some(w) => w,
            None => {
                return Ok(());
            },
        };
        let traits = Self::read_item(world, want.item);
        let targets = Self::targets_of(world, i, blast);
        let announce = world.player.id == i;
        let used = match Self::apply_effects(world, &targets, &traits, announce) {
            Ok(u) => u,
            Err(f) => {
                return Err(f);
            },
        };
        if used && traits.consumable {
            if !world.is_alive(want.item) {
                return Err(Fault::NoSuchEntity);
            }
            let ghost before = world@;
            world.pending_deletions.push(want.item);
            proof {
                assert(world@.entities =~= before.entities);
                assert forall|j: int| 0 <= j < world@.entities.len() implies #[trigger]
                    world@.slot_wf(j) by {
                    assert(before.slot_wf(j));
                }
            }
        }
        Ok(())
    }

    /// Carries out every intent to use an item, given the blast of each
    /// slot's item, and drops the intents.
    pub fn run_with(&mut self, world: &mut World, blasts: &Vec<Vec<Coord>>) -> (r: Result<
        (),
        Fault,
    >)
        requires
            old(world).wf(),
        ensures
            match item_use_system(old(world)@, blast_models(blasts@)) {
                Ok(m) => r is Ok && final(world)@ == m,
                Err(f) => r == Err::<(), Fault>(f),
            },
            final(world).wf(),
    {
        let n = world.entities.len();
        let none: Vec<Coord> = Vec::new();
        let ghost step = use_stepper(blast_models(blasts@));
        let mut i: usize = 0;
        while i < n
            invariant
                i <= n,
                n == world@.entities.len(),
                n == old(world)@.entities.len(),
                none@.len() == 0,
                step == use_stepper(blast_models(blasts@)),
                fold_slots(old(world)@, i as int, step) == Ok::<WorldModel, Fault>(world@),
                world.wf(),
            decreases n - i,
        {
            proof {
                assert(fold_slots(old(world)@, i + 1, step) == use_step(
                    world@,
                    i as int,
                    blast_at(blast_models(blasts@), i as int),
                ));
                assert(none@ =~= Seq::<Coord>::empty());
            }
            let outcome = if i < blasts.len() {
                Self::use_item(world, i, &blasts[i])
            } else {
                Self::use_item(world, i, &none)
            };
            match outcome {
                Ok(()) => {},
                Err(f) => {
                    proof {
                        lemma_fold_fault_sticks(old(world)@, i + 1, n as int, step);
                    }
                    return Err(f);
                },
            }
            i += 1;
        }
        world.clear_intents(IntentKind::UseItem);
        Ok(())
    }

    /// Carries out every intent to use an item. The blast of an item with
    /// an area of effect comes from the field-of-view computation, which
    /// fixes its tiles up to their order.
    pub fn run(&mut self, world: &mut World) -> (r: Result<(), Fault>)
        requires
            old(world).wf(),
        ensures
            exists|blasts: Seq<Seq<Coord>>|
                blasts_fit(old(world)@, blasts) && match #[trigger] item_use_system(
                    old(world)@,
                    blasts,
                ) {
                    Ok(m) => r is Ok && final(world)@ == m,
                    Err(f) => r == Err::<(), Fault>(f),
                },
            final(world).wf(),
    {
        let n = world.entities.len();
        let mut blasts: Vec<Vec<Coord>> = Vec::new();
        let mut i: usize = 0;
        while i < n
            invariant
                i <= n,
                n == world@.entities.len(),
                world.wf(),
                blasts@.len() == i,
                forall|j: int|
                    0 <= j < i && #[trigger] needs_blast(world@, j) ==> is_field_of_view(
                        world@.map,
                        world@.entities[j].wants_to_use_item.unwrap().target.unwrap(),
                        item_of(
                            world@,
                            world@.entities[j].wants_to_use_item.unwrap().item,
                        ).area_of_effect.unwrap().radius,
                        blasts@[j]@,
                    ),
            decreases n - i,
        {
            proof {
                assert(world@.slot_wf(i as int));
            }
            let request: Option<(Coord, i32)> = match world.entities[i].wants_to_use_item {
                Some(want) => match want.target {
                    Some(t) => {
                        if want.item.id < world.entities.len() {
                            proof {
                                assert(world@.slot_wf(want.item.id as int));
                            }
                            match world.entities[want.item.id].area_of_effect {
                                Some(a) => Some((t, a.radius)),
                                None => None,
                            }
                        } else {
                            None
                        }
                    },
                    None => None,
                },
                None => None,
            };
            let blast = match request {
                Some((center, radius)) => field_of_view(&world.map, center, radius),
                None => Vec::new(),
            };
            blasts.push(blast);
            i += 1;
        }
        proof {
            let models = blast_models(blasts@);
            assert forall|j: int|
                0 <= j < world@.entities.len() && #[trigger] needs_blast(
                    world@,
                    j,
                ) implies is_field_of_view(
                world@.map,
                world@.entities[j].wants_to_use_item.unwrap().target.unwrap(),
                item_of(
                    world@,
                    world@.entities[j].wants_to_use_item.unwrap().item,
                ).area_of_effect.unwrap().radius,
                models[j],
            ) by {}
            assert(blasts_fit(world@, models));
        }
        self.run_with(world, &blasts)
    }
}

/// Once an effect has hit a fault on one target, going on to further
/// targets yields the same fault.
pub proof fn lemma_apply_fault_sticks(
    u: Usage,
    targets: Seq<Entity>,
    k: int,
    n: int,
    effect: Effect,
    announce: bool,
    item_name: Option<Seq<char>>,
)
    requires
        0 <= k <= n,
        apply_all(u, targets, k, effect, announce, item_name) is Err,
    ensures
        apply_all(u, targets, n, effect, announce, item_name) == apply_all(
            u,
            targets,
            k,
            effect,
            announce,
            item_name,
        ),
    decreases n - k,
{
    if k < n {
        lemma_apply_fault_sticks(u, targets, k, n - 1, effect, announce, item_name);
    }
}

} // verus!
