//! What holds of the simulation as a whole, proved from the specifications
//! of its parts.

use vstd::prelude::*;
use crate::components::{Entity, EntityModel, Position};
use crate::damage_system::{damage_system, dead_swept, dies, lemma_total_push, total};
use crate::fov::{is_field_of_view, visible_from};
use crate::geometry::Coord;
use crate::item_use_system::blast_tiles;
use crate::gui::MenuKey;
use crate::inventory_system::{
    collect_step,
    collect_stepper,
    drop_step,
    drop_stepper,
    item_collection_system,
    item_drop_system,
};
use crate::item_use_system::{
    apply_all,
    apply_if,
    apply_one,
    blast_at,
    confuse_effect,
    consumed,
    harm_effect,
    heal_effect,
    item_of,
    item_use_system,
    use_step,
    use_stepper,
    use_targets,
    Effect,
    Usage,
};
use crate::player::{move_one, moved_upto, Command};
use crate::random_table::SpawnKind;
use crate::save_load_system::loaded;
use crate::spawner::{
    player_template,
    populated,
    spawned_upto,
    template,
    with_spawned,
    SpawnPoint,
};
use crate::map::{lemma_idx_in_range, lemma_idx_split, MapModel, TileType};
use crate::map_indexing_system::{index_cleared, index_stepper, map_indexing_system};
use crate::melee_combat_system::{melee_step, melee_stepper, melee_system};
use crate::monster_ai_system::{
    is_monster,
    lemma_exits_on_level,
    monster_ai_system,
    monster_step,
    monster_stepper,
    next_tile,
    path_for,
    requests_upto,
    seeks_path,
    PathModel,
};
use crate::state::{before_item_use, descended, phase_run, systems_run, ticked, RunState};
use crate::visibility_system::{
    lemma_visibility_fold,
    needs_refresh,
    refresh_step,
    visibility_stepper,
    visibility_system,
};
use crate::world::{fold_slots, without_intents, Fault, IntentKind, Step, WorldModel};

verus! {

/// Queuing one more amount of damage against an entity raises what it is
/// about to lose by exactly that amount.
pub proof fn theorem_damage_accumulates(w: WorldModel, victim: Entity, amount: i32)
    requires
        w.is_alive(victim),
    ensures
        w.new_damage(victim, amount) is Ok,
        ({
            let before = w.entities[victim.id as int].suffer_damage;
            let after = w.new_damage(victim, amount).unwrap().entities[victim.id as int].suffer_damage;
            &&& after is Some
            &&& total(after.unwrap()) == amount + (match before {
                Some(q) => total(q),
                None => 0,
            })
            &&& after.unwrap().len() == 1 + (match before {
                Some(q) => q.len(),
                None => 0,
            })
        }),
{
    match w.entities[victim.id as int].suffer_damage {
        Some(q) => {
            lemma_total_push(q, amount);
        },
        None => {
            assert(seq![amount] =~= Seq::<i32>::empty().push(amount));
            lemma_total_push(Seq::<i32>::empty(), amount);
        },
    }
}

/// After the damage system no entity has damage queued against it. An
/// entity that had amounts queued which sum to `d` has lost exactly `d`
/// hit points, provided that the difference fits 32 bits.
pub proof fn theorem_damage_aggregation(w: WorldModel, i: int)
    requires
        0 <= i < w.entities.len(),
    ensures
        damage_system(w).entities[i].suffer_damage is None,
        (w.entities[i].combat_stats is Some && w.entities[i].suffer_damage is Some && i32::MIN
            <= w.entities[i].combat_stats.unwrap().hp - total(w.entities[i].suffer_damage.unwrap())
            <= i32::MAX) ==> damage_system(w).entities[i].combat_stats.unwrap().hp
            == w.entities[i].combat_stats.unwrap().hp - total(
            w.entities[i].suffer_damage.unwrap(),
        ),
        w.entities[i].suffer_damage is None ==> damage_system(w).entities[i] == w.entities[i],
{
}

/// The sweep of the dead removes every entity that has no hit points left
/// and is not the player, leaves every player in place whatever its hit
/// points, and touches no one else.
pub proof fn theorem_death_exclusivity(w: WorldModel, i: int)
    requires
        0 <= i < w.entities.len(),
    ensures
        dies(w.entities[i]) ==> !dead_swept(w).entities[i].alive,
        w.entities[i].player is Some ==> dead_swept(w).entities[i] == w.entities[i],
        !dies(w.entities[i]) ==> dead_swept(w).entities[i] == w.entities[i],
{
}

/// Whatever the level keeps of a list of tiles was in the list, and is on
/// the level; with `inner` set it is off the level's outermost ring.
pub proof fn lemma_kept_contained(map: MapModel, tiles: Seq<Coord>, inner: bool, t: Coord)
    requires
        map.kept(tiles, inner).contains(t),
    ensures
        tiles.contains(t),
        inner ==> map.strictly_inside(t.x as int, t.y as int),
        !inner ==> map.in_bounds(t.x as int, t.y as int),
    decreases tiles.len(),
{
    if tiles.len() > 0 {
        let rest = map.kept(tiles.drop_last(), inner);
        let last = tiles.last();
        let k = choose|k: int| 0 <= k < map.kept(tiles, inner).len() && map.kept(tiles, inner)[k] == t;
        if rest.contains(t) {
            lemma_kept_contained(map, tiles.drop_last(), inner, t);
            let j = choose|j: int| 0 <= j < tiles.drop_last().len() && tiles.drop_last()[j] == t;
            assert(tiles[j] == t);
        } else {
            if k < rest.len() {
                assert(rest[k] == t);
            }
            assert(t == last);
            assert(tiles[tiles.len() - 1] == t);
        }
    }
}

/// Every tile that an area effect reaches is one that can be seen from its
/// centre within its radius, and lies strictly inside the level, off the
/// outermost ring of tiles.
pub proof fn theorem_blast_containment(
    w: WorldModel,
    center: Coord,
    radius: i32,
    blast: Seq<Coord>,
    t: Coord,
)
    requires
        is_field_of_view(w.map, center, radius, blast),
        blast_tiles(w, blast).contains(t),
    ensures
        visible_from(
            w.map.opacity(),
            w.map.width as int,
            w.map.height as int,
            center.x as int,
            center.y as int,
            radius as int,
        ).contains(t),
        w.map.strictly_inside(t.x as int, t.y as int),
{
    lemma_kept_contained(w.map, blast, true, t);
    assert(blast.to_set().contains(t));
}


/// An invariant of every step is an invariant of the fold.
pub proof fn lemma_fold_keeps(
    w: WorldModel,
    n: int,
    step: spec_fn(WorldModel, int) -> Step,
    inv: spec_fn(WorldModel) -> bool,
)
    requires
        0 <= n,
        inv(w),
        forall|m: WorldModel, i: int|
            0 <= i < n && inv(m) && (#[trigger] step(m, i)) is Ok ==> inv(step(m, i).unwrap()),
    ensures
        fold_slots(w, n, step) matches Ok(m) ==> inv(m),
    decreases n,
{
    if n > 0 {
        lemma_fold_keeps(w, n - 1, step, inv);
    }
}

/// A fold of steps that each leave the world as it is leaves it as it is.
pub proof fn lemma_fold_idle(w: WorldModel, n: int, step: spec_fn(WorldModel, int) -> Step)
    requires
        0 <= n,
        forall|i: int| 0 <= i < n ==> #[trigger] step(w, i) == Ok::<WorldModel, Fault>(w),
    ensures
        fold_slots(w, n, step) == Ok::<WorldModel, Fault>(w),
    decreases n,
{
    if n > 0 {
        lemma_fold_idle(w, n - 1, step);
    }
}

/// Nothing is waiting to be carried out: no entity holds an intent or has
/// damage queued against it, and no deletion has been put off.
pub open spec fn quiet(w: WorldModel) -> bool {
    &&& w.pending_deletions.len() == 0
    &&& forall|i: int|
        0 <= i < w.entities.len() ==> {
            let e = #[trigger] w.entities[i];
            &&& e.wants_to_melee is None
            &&& e.wants_to_pickup_item is None
            &&& e.wants_to_use_item is None
            &&& e.wants_to_drop_item is None
            &&& e.suffer_damage is None
        }
}

/// Whether `after` differs from `before` in nothing but fields of view
/// and what follows from them: the level's record of what is visible,
/// revealed, blocked and occupied.
pub open spec fn same_but_views(before: WorldModel, after: WorldModel) -> bool {
    &&& after.entities.len() == before.entities.len()
    &&& forall|i: int|
        0 <= i < before.entities.len() ==> #[trigger] after.entities[i] == (EntityModel {
            viewshed: after.entities[i].viewshed,
            ..before.entities[i]
        })
    &&& after.map.tiles == before.map.tiles
    &&& after.map.rooms == before.map.rooms
    &&& after.map.width == before.map.width
    &&& after.map.height == before.map.height
    &&& after.map.depth == before.map.depth
    &&& after.player == before.player
    &&& after.player_position == before.player_position
    &&& after.run_state == before.run_state
    &&& after.log == before.log
    &&& after.pending_deletions == before.pending_deletions
}

proof fn lemma_visibility_frame(w: WorldModel, sights: Seq<Seq<Coord>>, n: int)
    requires
        0 <= n <= w.entities.len(),
    ensures
        fold_slots(w, n, visibility_stepper(sights)) is Ok,
        same_but_views(w, fold_slots(w, n, visibility_stepper(sights)).unwrap()),
    decreases n,
{
    if n > 0 {
        lemma_visibility_frame(w, sights, n - 1);
        let m = fold_slots(w, n - 1, visibility_stepper(sights)).unwrap();
        let m2 = refresh_step(m, n - 1, sights[n - 1]);
        assert forall|i: int| 0 <= i < w.entities.len() implies #[trigger] m2.entities[i] == (
        EntityModel { viewshed: m2.entities[i].viewshed, ..w.entities[i] }) by {
            assert(m.entities[i] == (EntityModel {
                viewshed: m.entities[i].viewshed,
                ..w.entities[i]
            }));
        }
    }
}

proof fn lemma_index_frame(w: WorldModel, n: int)
    requires
        0 <= n,
    ensures
        fold_slots(w, n, index_stepper()) is Ok,
        ({
            let m = fold_slots(w, n, index_stepper()).unwrap();
            m == WorldModel {
                map: MapModel {
                    blocked_tiles: m.map.blocked_tiles,
                    tile_contents: m.map.tile_contents,
                    ..w.map
                },
                ..w
            }
        }),
    decreases n,
{
    if n > 0 {
        lemma_index_frame(w, n - 1);
    }
}

/// A pass over the systems outside the monsters' turn, with nothing
/// waiting to be carried out, goes through and changes nothing but fields
/// of view and what follows from them.
pub proof fn theorem_quiet_pass_changes_only_views(
    w: WorldModel,
    sights: Seq<Seq<Coord>>,
    paths: Seq<PathModel>,
    blasts: Seq<Seq<Coord>>,
)
    requires
        quiet(w),
        w.run_state != RunState::MonsterTurn,
    ensures
        systems_run(w, sights, paths, blasts) is Ok,
        same_but_views(w, systems_run(w, sights, paths, blasts).unwrap()),
        quiet(systems_run(w, sights, paths, blasts).unwrap()),
{
    let n = w.entities.len() as int;
    lemma_visibility_frame(w, sights, n);
    let seen = visibility_system(w, sights);
    assert(monster_ai_system(seen, paths) == seen);
    lemma_index_frame(index_cleared(seen), n);
    let indexed = map_indexing_system(seen);
    assert(indexed.entities == seen.entities);
    assert forall|i: int| 0 <= i < n implies {
        let e = #[trigger] indexed.entities[i];
        &&& e.wants_to_melee is None
        &&& e.wants_to_pickup_item is None
        &&& e.wants_to_use_item is None
        &&& e.wants_to_drop_item is None
        &&& e.suffer_damage is None
    } by {
        assert(seen.entities[i] == (EntityModel {
            viewshed: seen.entities[i].viewshed,
            ..w.entities[i]
        }));
    }
    assert forall|i: int| 0 <= i < n implies #[trigger] melee_stepper()(indexed, i) == Ok::<
        WorldModel,
        Fault,
    >(indexed) by {
        let e = indexed.entities[i];
    }
    lemma_fold_idle(indexed, n, melee_stepper());
    assert(without_intents(indexed, IntentKind::Melee).entities =~= indexed.entities);
    assert(melee_system(indexed) == Ok::<WorldModel, Fault>(indexed));
    assert(damage_system(indexed).entities =~= indexed.entities);
    assert forall|i: int| 0 <= i < n implies #[trigger] collect_stepper()(indexed, i) == Ok::<
        WorldModel,
        Fault,
    >(indexed) by {
        let e = indexed.entities[i];
    }
    lemma_fold_idle(indexed, n, collect_stepper());
    assert(without_intents(indexed, IntentKind::Pickup).entities =~= indexed.entities);
    assert(before_item_use(w, sights, paths) == Ok::<WorldModel, Fault>(indexed));
    assert forall|i: int| 0 <= i < n implies #[trigger] use_stepper(blasts)(indexed, i) == Ok::<
        WorldModel,
        Fault,
    >(indexed) by {
        let e = indexed.entities[i];
    }
    lemma_fold_idle(indexed, n, use_stepper(blasts));
    assert(without_intents(indexed, IntentKind::UseItem).entities =~= indexed.entities);
    assert forall|i: int| 0 <= i < n implies #[trigger] drop_stepper()(indexed, i) == Ok::<
        WorldModel,
        Fault,
    >(indexed) by {
        let e = indexed.entities[i];
    }
    lemma_fold_idle(indexed, n, drop_stepper());
    assert(without_intents(indexed, IntentKind::DropItem).entities =~= indexed.entities);
    assert(indexed.pending_deletions =~= Seq::<Entity>::empty());
    assert forall|j: int| 0 <= j < n implies !indexed.doomed(j) by {}
    assert(indexed.maintained().entities =~= indexed.entities);
    assert(systems_run(w, sights, paths, blasts) == Ok::<WorldModel, Fault>(indexed));
}


/// An item is in exactly one place: on the ground or in a backpack.
pub open spec fn item_placed(e: EntityModel) -> bool {
    e.item is Some ==> (e.position is Some) != (e.in_backpack is Some)
}

/// Every item of the world is in exactly one place.
pub open spec fn items_placed(w: WorldModel) -> bool {
    forall|i: int| 0 <= i < w.entities.len() ==> item_placed(#[trigger] w.entities[i])
}

pub open spec fn placed_and_sized(n: int) -> spec_fn(WorldModel) -> bool {
    |m: WorldModel| m.entities.len() == n && items_placed(m)
}

proof fn lemma_apply_keeps_placed(
    u: Usage,
    targets: Seq<Entity>,
    k: int,
    effect: Effect,
    announce: bool,
    item_name: Option<Seq<char>>,
)
    requires
        items_placed(u.world),
        0 <= k,
    ensures
        apply_all(u, targets, k, effect, announce, item_name) matches Ok(v) ==> items_placed(v.world)
            && v.world.entities.len() == u.world.entities.len(),
    decreases k,
{
    if k > 0 {
        lemma_apply_keeps_placed(u, targets, k - 1, effect, announce, item_name);
        match apply_all(u, targets, k - 1, effect, announce, item_name) {
            Ok(v) => {
                match apply_one(v, targets[k - 1], effect, announce, item_name) {
                    Ok(v2) => {
                        assert forall|i: int| 0 <= i < v2.world.entities.len() implies item_placed(
                            #[trigger] v2.world.entities[i],
                        ) by {
                            assert(item_placed(v.world.entities[i]));
                        }
                    },
                    Err(_) => {},
                }
            },
            Err(_) => {},
        }
    }
}

proof fn lemma_use_keeps_placed(m: WorldModel, i: int, blast: Seq<Coord>)
    requires
        items_placed(m),
        0 <= i < m.entities.len(),
    ensures
        use_step(m, i, blast) matches Ok(m2) ==> items_placed(m2) && m2.entities.len()
            == m.entities.len(),
{
    match m.entities[i].wants_to_use_item {
        None => {},
        Some(want) => {
            let it = item_of(m, want.item);
            let targets = use_targets(m, i, blast);
            let announce = m.player.id == i;
            let n = targets.len() as int;
            let start = Usage { world: m, used: false };
            let healing = apply_if(Ok(start), heal_effect(it), targets, announce, it.name);
            match heal_effect(it) {
                Some(e) => {
                    lemma_apply_keeps_placed(start, targets, n, e, announce, it.name);
                },
                None => {},
            }
            match healing {
                Ok(h) => {
                    let harming = apply_if(healing, harm_effect(it), targets, announce, it.name);
                    match harm_effect(it) {
                        Some(e) => {
                            lemma_apply_keeps_placed(h, targets, n, e, announce, it.name);
                        },
                        None => {},
                    }
                    match harming {
                        Ok(g) => {
                            match confuse_effect(it) {
                                Some(e) => {
                                    lemma_apply_keeps_placed(g, targets, n, e, announce, it.name);
                                },
                                None => {},
                            }
                            let confusing = apply_if(
                                harming,
                                confuse_effect(it),
                                targets,
                                announce,
                                it.name,
                            );
                            match confusing {
                                Ok(c) => {
                                    match consumed(confusing, it, want.item) {
                                        Ok(m2) => {
                                            assert(m2.entities == c.world.entities);
                                        },
                                        Err(_) => {},
                                    }
                                },
                                Err(_) => {},
                            }
                        },
                        Err(_) => {},
                    }
                },
                Err(_) => {},
            }
        },
    }
}

proof fn lemma_moved_keeps_placed(w: WorldModel, n: int, dx: i32, dy: i32)
    requires
        items_placed(w),
        0 <= n <= w.entities.len(),
    ensures
        items_placed(moved_upto(w, n, dx, dy).0),
        moved_upto(w, n, dx, dy).0.entities.len() == w.entities.len(),
    decreases n,
{
    if n > 0 {
        lemma_moved_keeps_placed(w, n - 1, dx, dy);
        let (m, done) = moved_upto(w, n - 1, dx, dy);
        if !done {
            let m2 = move_one(m, n - 1, dx, dy).0;
            assert forall|i: int| 0 <= i < m2.entities.len() implies item_placed(
                #[trigger] m2.entities[i],
            ) by {
                assert(item_placed(m.entities[i]));
            }
        }
    }
}

/// One pass over the systems keeps every item in exactly one place.
pub proof fn theorem_pass_keeps_items_placed(
    w: WorldModel,
    sights: Seq<Seq<Coord>>,
    paths: Seq<PathModel>,
    blasts: Seq<Seq<Coord>>,
)
    requires
        items_placed(w),
    ensures
        systems_run(w, sights, paths, blasts) matches Ok(m) ==> items_placed(m) && m.entities.len()
            == w.entities.len(),
{
    let n = w.entities.len() as int;
    let inv = placed_and_sized(n);
    assert(inv(w));
    // visibility
    assert forall|m: WorldModel, i: int|
        0 <= i < n && inv(m) && (#[trigger] visibility_stepper(sights)(m, i)) is Ok implies inv(
        visibility_stepper(sights)(m, i).unwrap(),
    ) by {
        let m2 = refresh_step(m, i, sights[i]);
        assert forall|j: int| 0 <= j < m2.entities.len() implies item_placed(
            #[trigger] m2.entities[j],
        ) by {
            assert(item_placed(m.entities[j]));
        }
    }
    lemma_fold_keeps(w, n, visibility_stepper(sights), inv);
    lemma_visibility_fold(w, sights, n);
    let seen = visibility_system(w, sights);
    assert(inv(seen));
    // monsters
    assert forall|m: WorldModel, i: int|
        0 <= i < n && inv(m) && (#[trigger] monster_stepper(paths)(m, i)) is Ok implies inv(
        monster_stepper(paths)(m, i).unwrap(),
    ) by {
        let m2 = monster_step(m, i, paths);
        assert forall|j: int| 0 <= j < m2.entities.len() implies item_placed(
            #[trigger] m2.entities[j],
        ) by {
            assert(item_placed(m.entities[j]));
        }
    }
    lemma_fold_keeps(seen, n, monster_stepper(paths), inv);
    let acted = monster_ai_system(seen, paths);
    assert(fold_slots(seen, n, monster_stepper(paths)) is Ok) by {
        lemma_steps_never_fault(seen, n, monster_stepper(paths));
    }
    assert(inv(acted));
    // indexing
    lemma_index_frame(index_cleared(acted), n);
    let indexed = map_indexing_system(acted);
    assert(indexed.entities == acted.entities);
    assert(inv(indexed));
    // melee
    assert forall|m: WorldModel, i: int|
        0 <= i < n && inv(m) && (#[trigger] melee_stepper()(m, i)) is Ok implies inv(
        melee_stepper()(m, i).unwrap(),
    ) by {
        let m2 = melee_step(m, i).unwrap();
        assert forall|j: int| 0 <= j < m2.entities.len() implies item_placed(
            #[trigger] m2.entities[j],
        ) by {
            assert(item_placed(m.entities[j]));
        }
    }
    lemma_fold_keeps(indexed, n, melee_stepper(), inv);
    match melee_system(indexed) {
        Err(_) => {},
        Ok(fought) => {
            let folded = fold_slots(indexed, n, melee_stepper()).unwrap();
            assert forall|j: int| 0 <= j < n implies item_placed(#[trigger] fought.entities[j]) by {
                assert(item_placed(folded.entities[j]));
            }
            let hurt = damage_system(fought);
            assert forall|j: int| 0 <= j < n implies item_placed(#[trigger] hurt.entities[j]) by {
                assert(item_placed(fought.entities[j]));
            }
            assert(inv(hurt));
            // collection
            assert forall|m: WorldModel, i: int|
                0 <= i < n && inv(m) && (#[trigger] collect_stepper()(m, i)) is Ok implies inv(
                collect_stepper()(m, i).unwrap(),
            ) by {
                let m2 = collect_step(m, i).unwrap();
                assert forall|j: int| 0 <= j < m2.entities.len() implies item_placed(
                    #[trigger] m2.entities[j],
                ) by {
                    assert(item_placed(m.entities[j]));
                }
            }
            lemma_fold_keeps(hurt, n, collect_stepper(), inv);
            match item_collection_system(hurt) {
                Err(_) => {},
                Ok(collected) => {
                    let folded = fold_slots(hurt, n, collect_stepper()).unwrap();
                    assert forall|j: int| 0 <= j < n implies item_placed(
                        #[trigger] collected.entities[j],
                    ) by {
                        assert(item_placed(folded.entities[j]));
                    }
                    assert(inv(collected));
                    // use
                    assert forall|m: WorldModel, i: int|
                        0 <= i < n && inv(m) && (#[trigger] use_stepper(blasts)(m, i))
                            is Ok implies inv(use_stepper(blasts)(m, i).unwrap()) by {
                        lemma_use_keeps_placed(m, i, blast_at(blasts, i));
                    }
                    lemma_fold_keeps(collected, n, use_stepper(blasts), inv);
                    match item_use_system(collected, blasts) {
                        Err(_) => {},
                        Ok(used) => {
                            let folded = fold_slots(collected, n, use_stepper(blasts)).unwrap();
                            assert forall|j: int| 0 <= j < n implies item_placed(
                                #[trigger] used.entities[j],
                            ) by {
                                assert(item_placed(folded.entities[j]));
                            }
                            assert(inv(used));
                            // drop
                            assert forall|m: WorldModel, i: int|
                                0 <= i < n && inv(m) && (#[trigger] drop_stepper()(m, i))
                                    is Ok implies inv(drop_stepper()(m, i).unwrap()) by {
                                let m2 = drop_step(m, i).unwrap();
                                assert forall|j: int|
                                    0 <= j < m2.entities.len() implies item_placed(
                                    #[trigger] m2.entities[j],
                                ) by {
                                    assert(item_placed(m.entities[j]));
                                }
                            }
                            lemma_fold_keeps(used, n, drop_stepper(), inv);
                            match item_drop_system(used) {
                                Err(_) => {},
                                Ok(dropped) => {
                                    let folded = fold_slots(used, n, drop_stepper()).unwrap();
                                    assert forall|j: int| 0 <= j < n implies item_placed(
                                        #[trigger] dropped.entities[j],
                                    ) by {
                                        assert(item_placed(folded.entities[j]));
                                    }
                                    let kept = dropped.maintained();
                                    assert forall|j: int| 0 <= j < n implies item_placed(
                                        #[trigger] kept.entities[j],
                                    ) by {
                                        assert(item_placed(dropped.entities[j]));
                                    }
                                },
                            }
                        },
                    }
                },
            }
        },
    }
}

/// A fold of steps that cannot fault does not fault.
pub proof fn lemma_steps_never_fault(w: WorldModel, n: int, step: spec_fn(WorldModel, int) -> Step)
    requires
        0 <= n,
        forall|m: WorldModel, i: int| (#[trigger] step(m, i)) is Ok,
    ensures
        fold_slots(w, n, step) is Ok,
    decreases n,
{
    if n > 0 {
        lemma_steps_never_fault(w, n - 1, step);
    }
}

/// One tick keeps every item in exactly one place, whatever the phase and
/// whatever the input.
pub proof fn theorem_tick_keeps_items_placed(
    w: WorldModel,
    command: Option<Command>,
    key: Option<MenuKey>,
    mouse: Coord,
    left_click: bool,
    paths: Seq<PathModel>,
    sights: Seq<Seq<Coord>>,
    blasts: Seq<Seq<Coord>>,
)
    requires
        items_placed(w),
    ensures
        ticked(w, command, key, mouse, left_click, paths, sights, blasts) matches Ok((m, _))
            ==> items_placed(m),
{
    match phase_run(w, command, key, mouse, left_click, paths, sights, blasts) {
        Err(_) => {},
        Ok((m, action)) => {
            theorem_pass_keeps_items_placed(w, sights, paths, blasts);
            match command {
                Some(c) => match c.spec_delta() {
                    Some((dx, dy)) => {
                        lemma_moved_keeps_placed(w, w.entities.len() as int, dx, dy);
                    },
                    None => {},
                },
                None => {},
            }
            assert forall|j: int| 0 <= j < m.entities.len() implies item_placed(
                #[trigger] m.entities[j],
            ) by {
                if j < w.entities.len() {
                    assert(item_placed(w.entities[j]));
                }
            }
            let swept = dead_swept(m);
            assert forall|j: int| 0 <= j < swept.entities.len() implies item_placed(
                #[trigger] swept.entities[j],
            ) by {
                assert(item_placed(m.entities[j]));
            }
        },
    }
}

/// The descent to a new level keeps every item in exactly one place.
pub proof fn theorem_descent_keeps_items_placed(w: WorldModel, map: MapModel)
    requires
        items_placed(w),
    ensures
        items_placed(descended(w, map)),
{
    let m = descended(w, map);
    assert forall|j: int| 0 <= j < m.entities.len() implies item_placed(#[trigger] m.entities[j]) by {
        assert(item_placed(w.entities[j]));
    }
}

/// Whatever is created from a template is in exactly one place: on the
/// ground, where it was put.
pub proof fn theorem_spawn_keeps_items_placed(w: WorldModel, kind: SpawnKind, x: i32, y: i32)
    requires
        items_placed(w),
    ensures
        item_placed(template(kind, x, y)),
        template(kind, x, y).position == Some(Position { x, y }),
        items_placed(with_spawned(w, template(kind, x, y))),
        items_placed(with_spawned(w, player_template(x, y))),
{
    let e = template(kind, x, y);
    let m = with_spawned(w, e);
    assert forall|j: int| 0 <= j < m.entities.len() implies item_placed(#[trigger] m.entities[j]) by {
        if j < w.entities.len() {
            assert(item_placed(w.entities[j]));
        }
    }
    let p = with_spawned(w, player_template(x, y));
    assert forall|j: int| 0 <= j < p.entities.len() implies item_placed(#[trigger] p.entities[j]) by {
        if j < w.entities.len() {
            assert(item_placed(w.entities[j]));
        }
    }
}

/// Filling a room keeps every item in exactly one place.
pub proof fn theorem_populated_keeps_items_placed(w: WorldModel, points: Seq<SpawnPoint>, n: int)
    requires
        items_placed(w),
        0 <= n <= points.len(),
    ensures
        forall|j: int|
            0 <= j < spawned_upto(points, n).len() ==> item_placed(
                #[trigger] spawned_upto(points, n)[j],
            ),
        n == points.len() ==> items_placed(populated(w, points)),
    decreases n,
{
    if n > 0 {
        theorem_populated_keeps_items_placed(w, points, n - 1);
        match points[n - 1].kind {
            Some(kind) => {
                theorem_spawn_keeps_items_placed(w, kind, points[n - 1].x, points[n - 1].y);
            },
            None => {},
        }
        let now = spawned_upto(points, n);
        let before = spawned_upto(points, n - 1);
        assert forall|j: int| 0 <= j < now.len() implies item_placed(#[trigger] now[j]) by {
            if j < before.len() {
                assert(item_placed(before[j]));
            }
        }
    }
    if n == points.len() {
        let m = populated(w, points);
        assert forall|j: int| 0 <= j < m.entities.len() implies item_placed(
            #[trigger] m.entities[j],
        ) by {
            if j < w.entities.len() {
                assert(item_placed(w.entities[j]));
            } else {
                assert(item_placed(spawned_upto(points, n)[j - w.entities.len()]));
            }
        }
    }
}

/// Loading a stored world in which every item is in exactly one place
/// gives a world in which that is so.
pub proof fn theorem_load_keeps_items_placed(current: WorldModel, saved: WorldModel)
    requires
        items_placed(saved),
    ensures
        items_placed(loaded(current, saved)),
{
}

proof fn lemma_visibility_settles(w: WorldModel, sights: Seq<Seq<Coord>>, n: int)
    requires
        0 <= n <= w.entities.len(),
    ensures
        fold_slots(w, n, visibility_stepper(sights)) is Ok,
        ({
            let m = fold_slots(w, n, visibility_stepper(sights)).unwrap();
            &&& m.entities.len() == w.entities.len()
            &&& forall|j: int| 0 <= j < n ==> !needs_refresh(#[trigger] m.entities[j])
            &&& forall|j: int| n <= j < w.entities.len() ==> m.entities[j] == w.entities[j]
        }),
    decreases n,
{
    if n > 0 {
        lemma_visibility_settles(w, sights, n - 1);
        let m = fold_slots(w, n - 1, visibility_stepper(sights)).unwrap();
        let m2 = refresh_step(m, n - 1, sights[n - 1]);
        assert forall|j: int| 0 <= j < n implies !needs_refresh(#[trigger] m2.entities[j]) by {
            if j < n - 1 {
                assert(!needs_refresh(m.entities[j]));
            }
        }
    }
}

/// After the visibility system no field of view is stale, and a world
/// without stale fields of view is left as it is by the visibility
/// system. So running it once more, with whatever tiles, changes nothing.
pub proof fn theorem_visibility_settles(
    w: WorldModel,
    sights: Seq<Seq<Coord>>,
    again: Seq<Seq<Coord>>,
)
    ensures
        forall|j: int|
            0 <= j < w.entities.len() ==> !needs_refresh(
                #[trigger] visibility_system(w, sights).entities[j],
            ),
        visibility_system(visibility_system(w, sights), again) == visibility_system(w, sights),
{
    let n = w.entities.len() as int;
    lemma_visibility_settles(w, sights, n);
    let seen = visibility_system(w, sights);
    assert forall|i: int| 0 <= i < n implies #[trigger] visibility_stepper(again)(seen, i) == Ok::<
        WorldModel,
        Fault,
    >(seen) by {
        assert(!needs_refresh(seen.entities[i]));
    }
    lemma_fold_idle(seen, n, visibility_stepper(again));
}

proof fn lemma_monsters_agree(w: WorldModel, a: Seq<PathModel>, b: Seq<PathModel>, n: int)
    requires
        0 <= n <= w.entities.len(),
        forall|i: int|
            0 <= i < w.entities.len() && #[trigger] seeks_path(w, i) ==> path_for(a, i, 0)
                == path_for(b, i, 0),
    ensures
        fold_slots(w, n, monster_stepper(a)) is Ok,
        fold_slots(w, n, monster_stepper(a)) == fold_slots(w, n, monster_stepper(b)),
        ({
            let m = fold_slots(w, n, monster_stepper(a)).unwrap();
            &&& m.entities.len() == w.entities.len()
            &&& m.player_position == w.player_position
            &&& m.map.width == w.map.width
            &&& m.map.height == w.map.height
            &&& forall|j: int| n <= j < w.entities.len() ==> m.entities[j] == w.entities[j]
        }),
    decreases n,
{
    if n > 0 {
        lemma_monsters_agree(w, a, b, n - 1);
        let m = fold_slots(w, n - 1, monster_stepper(a)).unwrap();
        assert(m.entities[n - 1] == w.entities[n - 1]);
        assert(seeks_path(m, n - 1) == seeks_path(w, n - 1));
        assert(monster_step(m, n - 1, a) == monster_step(m, n - 1, b));
    }
}

/// The monsters' turn looks at routes only for the monsters that
/// `path_requests` lists: two lists of answers that agree on those give the
/// same turn.
pub proof fn theorem_only_requested_routes_matter(
    w: WorldModel,
    a: Seq<PathModel>,
    b: Seq<PathModel>,
)
    requires
        forall|i: int|
            0 <= i < w.entities.len() && #[trigger] seeks_path(w, i) ==> path_for(a, i, 0)
                == path_for(b, i, 0),
    ensures
        monster_ai_system(w, a) == monster_ai_system(w, b),
{
    lemma_monsters_agree(w, a, b, w.entities.len() as int);
}

/// `path_requests` lists exactly the monsters that look for a route, each
/// once, in slot order, from where it stands to where the player stands.
pub proof fn theorem_requests_are_for_seekers(w: WorldModel, n: int)
    requires
        0 <= n <= w.entities.len(),
        w.entities.len() <= usize::MAX,
    ensures
        forall|k: int|
            0 <= k < requests_upto(w, n).len() ==> {
                let r = #[trigger] requests_upto(w, n)[k];
                &&& r.monster.id < n
                &&& seeks_path(w, r.monster.id as int)
                &&& r.start == w.map.idx(
                    w.entities[r.monster.id as int].position.unwrap().x as int,
                    w.entities[r.monster.id as int].position.unwrap().y as int,
                ) as usize
                &&& r.end == w.map.idx(w.player_position.x as int, w.player_position.y as int) as usize
            },
        forall|i: int|
            0 <= i < n && seeks_path(w, i) ==> exists|k: int|
                0 <= k < requests_upto(w, n).len() && (#[trigger] requests_upto(w, n)[k]).monster.id
                    == i,
        forall|j: int, k: int|
            0 <= j < k < requests_upto(w, n).len() ==> (#[trigger] requests_upto(w, n)[j]).monster.id
                < (#[trigger] requests_upto(w, n)[k]).monster.id,
    decreases n,
{
    if n > 0 {
        theorem_requests_are_for_seekers(w, n - 1);
        let before = requests_upto(w, n - 1);
        let now = requests_upto(w, n);
        assert forall|i: int| 0 <= i < n && seeks_path(w, i) implies exists|k: int|
            0 <= k < now.len() && (#[trigger] now[k]).monster.id == i by {
            if i < n - 1 {
                let k = choose|k: int|
                    0 <= k < before.len() && (#[trigger] before[k]).monster.id == i;
                assert(now[k] == before[k]);
            } else {
                assert(now[now.len() - 1].monster.id == i);
            }
        }
        assert forall|j: int, k: int| 0 <= j < k < now.len() implies (#[trigger] now[j]).monster.id
            < (#[trigger] now[k]).monster.id by {
            if k < before.len() {
                assert(before[j].monster.id < before[k].monster.id);
            } else {
                assert(before[j].monster.id < n - 1);
            }
        }
    }
}

/// A monster that moves on its turn ends up on a tile of the level that
/// is not a wall, one step west, east, north or south of where it stood.
/// Whatever it does, it still stands somewhere.
pub proof fn theorem_monsters_step_to_open_neighbours(m: WorldModel, i: int, paths: Seq<PathModel>)
    requires
        m.wf(),
        0 <= i < m.entities.len(),
        m.entities[i].position is Some,
    ensures
        monster_step(m, i, paths).entities[i].position is Some,
        ({
            let before = m.entities[i].position.unwrap();
            let after = monster_step(m, i, paths).entities[i].position.unwrap();
            let from = m.map.idx(before.x as int, before.y as int);
            let to = m.map.idx(after.x as int, after.y as int);
            after != before ==> {
                &&& m.map.in_bounds(after.x as int, after.y as int)
                &&& m.map.tiles[to] != TileType::Wall
                &&& (after.x - before.x) * (after.x - before.x) + (after.y - before.y) * (after.y
                    - before.y) == 1
            }
        }),
{
    let e = m.entities[i];
    let p = e.position.unwrap();
    assert(m.slot_wf(i));
    lemma_idx_in_range(m.map, p.x as int, p.y as int);
    let here = m.map.idx(p.x as int, p.y as int);
    if is_monster(e) && e.confusion is None {
        match next_tile(m.map, here, path_for(paths, i, 0)) {
            Some(k) => {
                lemma_exits_on_level(m.map, here, k as usize);
                lemma_idx_split(m.map, k);
                let w = m.map.width as int;
                let x = k % w;
                let y = k / w;
                let after = monster_step(m, i, paths).entities[i].position.unwrap();
                if after != p {
                    assert(after.x == x && after.y == y);
                    assert(here % w == p.x && here / w == p.y);
                    if m.map.in_bounds(p.x - 1, p.y as int) && k == m.map.idx(p.x - 1, p.y as int) {
                        lemma_idx_in_range(m.map, p.x - 1, p.y as int);
                        assert(x == p.x - 1 && y == p.y);
                    } else if m.map.in_bounds(p.x + 1, p.y as int) && k == m.map.idx(
                        p.x + 1,
                        p.y as int,
                    ) {
                        lemma_idx_in_range(m.map, p.x + 1, p.y as int);
                        assert(x == p.x + 1 && y == p.y);
                    } else if m.map.in_bounds(p.x as int, p.y - 1) && k == m.map.idx(
                        p.x as int,
                        p.y - 1,
                    ) {
                        lemma_idx_in_range(m.map, p.x as int, p.y - 1);
                        assert(x == p.x && y == p.y - 1);
                    } else {
                        lemma_idx_in_range(m.map, p.x as int, p.y + 1);
                        assert(x == p.x && y == p.y + 1);
                    }
                    assert((after.x - p.x) * (after.x - p.x) + (after.y - p.y) * (after.y - p.y) == 1)
                        by (nonlinear_arith)
                        requires
                            (after.x - p.x == 1 && after.y == p.y) || (after.x - p.x == -1 && after.y
                                == p.y) || (after.x == p.x && after.y - p.y == 1) || (after.x == p.x
                                && after.y - p.y == -1),
                    ;
                    assert(m.map.idx(after.x as int, after.y as int) == k);
                }
            },
            None => {},
        }
    }
}

/// Whether the entity holds an intent of the given kind.
pub open spec fn holds_intent(e: EntityModel, kind: IntentKind) -> bool {
    match kind {
        IntentKind::Melee => e.wants_to_melee is Some,
        IntentKind::Pickup => e.wants_to_pickup_item is Some,
        IntentKind::UseItem => e.wants_to_use_item is Some,
        IntentKind::DropItem => e.wants_to_drop_item is Some,
    }
}

/// Whether no entity of the world holds an intent of the given kind.
pub open spec fn free_of(m: WorldModel, kind: IntentKind) -> bool {
    forall|i: int| 0 <= i < m.entities.len() ==> !holds_intent(#[trigger] m.entities[i], kind)
}

pub open spec fn free_and_sized(n: int, kind: IntentKind) -> spec_fn(WorldModel) -> bool {
    |m: WorldModel| m.entities.len() == n && free_of(m, kind)
}

proof fn lemma_apply_keeps_free(
    u: Usage,
    targets: Seq<Entity>,
    k: int,
    effect: Effect,
    announce: bool,
    item_name: Option<Seq<char>>,
    kind: IntentKind,
)
    requires
        free_of(u.world, kind),
        0 <= k,
    ensures
        apply_all(u, targets, k, effect, announce, item_name) matches Ok(v) ==> free_of(
            v.world,
            kind,
        ) && v.world.entities.len() == u.world.entities.len(),
    decreases k,
{
    if k > 0 {
        lemma_apply_keeps_free(u, targets, k - 1, effect, announce, item_name, kind);
        match apply_all(u, targets, k - 1, effect, announce, item_name) {
            Ok(v) => {
                match apply_one(v, targets[k - 1], effect, announce, item_name) {
                    Ok(v2) => {
                        assert forall|i: int|
                            0 <= i < v2.world.entities.len() implies !holds_intent(
                            #[trigger] v2.world.entities[i],
                            kind,
                        ) by {
                            assert(!holds_intent(v.world.entities[i], kind));
                        }
                    },
                    Err(_) => {},
                }
            },
            Err(_) => {},
        }
    }
}

proof fn lemma_use_keeps_free(m: WorldModel, i: int, blast: Seq<Coord>, kind: IntentKind)
    requires
        free_of(m, kind),
        0 <= i < m.entities.len(),
    ensures
        use_step(m, i, blast) matches Ok(m2) ==> free_of(m2, kind) && m2.entities.len()
            == m.entities.len(),
{
    match m.entities[i].wants_to_use_item {
        None => {},
        Some(want) => {
            let it = item_of(m, want.item);
            let targets = use_targets(m, i, blast);
            let announce = m.player.id == i;
            let n = targets.len() as int;
            let start = Usage { world: m, used: false };
            let healing = apply_if(Ok(start), heal_effect(it), targets, announce, it.name);
            match heal_effect(it) {
                Some(e) => {
                    lemma_apply_keeps_free(start, targets, n, e, announce, it.name, kind);
                },
                None => {},
            }
            match healing {
                Ok(h) => {
                    let harming = apply_if(healing, harm_effect(it), targets, announce, it.name);
                    match harm_effect(it) {
                        Some(e) => {
                            lemma_apply_keeps_free(h, targets, n, e, announce, it.name, kind);
                        },
                        None => {},
                    }
                    match harming {
                        Ok(g) => {
                            match confuse_effect(it) {
                                Some(e) => {
                                    lemma_apply_keeps_free(
                                        g,
                                        targets,
                                        n,
                                        e,
                                        announce,
                                        it.name,
                                        kind,
                                    );
                                },
                                None => {},
                            }
                            let confusing = apply_if(
                                harming,
                                confuse_effect(it),
                                targets,
                                announce,
                                it.name,
                            );
                            match confusing {
                                Ok(c) => {
                                    match consumed(confusing, it, want.item) {
                                        Ok(m2) => {
                                            assert(m2.entities == c.world.entities);
                                        },
                                        Err(_) => {},
                                    }
                                },
                                Err(_) => {},
                            }
                        },
                        Err(_) => {},
                    }
                },
                Err(_) => {},
            }
        },
    }
}

/// The three item systems and the deferred deletions create no intents:
/// a world that is free of a kind of intent stays so through them.
proof fn lemma_item_systems_keep_free(w: WorldModel, blasts: Seq<Seq<Coord>>, kind: IntentKind)
    requires
        free_of(w, kind),
    ensures
        item_collection_system(w) matches Ok(m) ==> free_of(m, kind) && m.entities.len()
            == w.entities.len(),
        item_use_system(w, blasts) matches Ok(m) ==> free_of(m, kind) && m.entities.len()
            == w.entities.len(),
        item_drop_system(w) matches Ok(m) ==> free_of(m, kind) && m.entities.len()
            == w.entities.len(),
        free_of(w.maintained(), kind),
        free_of(damage_system(w), kind),
{
    let n = w.entities.len() as int;
    let inv = free_and_sized(n, kind);
    assert(inv(w));
    assert forall|m: WorldModel, i: int|
        0 <= i < n && inv(m) && (#[trigger] collect_stepper()(m, i)) is Ok implies inv(
        collect_stepper()(m, i).unwrap(),
    ) by {
        let m2 = collect_step(m, i).unwrap();
        assert forall|j: int| 0 <= j < m2.entities.len() implies !holds_intent(
            #[trigger] m2.entities[j],
            kind,
        ) by {
            assert(!holds_intent(m.entities[j], kind));
        }
    }
    lemma_fold_keeps(w, n, collect_stepper(), inv);
    match item_collection_system(w) {
        Ok(m) => {
            let folded = fold_slots(w, n, collect_stepper()).unwrap();
            assert forall|j: int| 0 <= j < m.entities.len() implies !holds_intent(
                #[trigger] m.entities[j],
                kind,
            ) by {
                assert(!holds_intent(folded.entities[j], kind));
            }
        },
        Err(_) => {},
    }
    assert forall|m: WorldModel, i: int|
        0 <= i < n && inv(m) && (#[trigger] use_stepper(blasts)(m, i)) is Ok implies inv(
        use_stepper(blasts)(m, i).unwrap(),
    ) by {
        lemma_use_keeps_free(m, i, blast_at(blasts, i), kind);
    }
    lemma_fold_keeps(w, n, use_stepper(blasts), inv);
    match item_use_system(w, blasts) {
        Ok(m) => {
            let folded = fold_slots(w, n, use_stepper(blasts)).unwrap();
            assert forall|j: int| 0 <= j < m.entities.len() implies !holds_intent(
                #[trigger] m.entities[j],
                kind,
            ) by {
                assert(!holds_intent(folded.entities[j], kind));
            }
        },
        Err(_) => {},
    }
    assert forall|m: WorldModel, i: int|
        0 <= i < n && inv(m) && (#[trigger] drop_stepper()(m, i)) is Ok implies inv(
        drop_stepper()(m, i).unwrap(),
    ) by {
        let m2 = drop_step(m, i).unwrap();
        assert forall|j: int| 0 <= j < m2.entities.len() implies !holds_intent(
            #[trigger] m2.entities[j],
            kind,
        ) by {
            assert(!holds_intent(m.entities[j], kind));
        }
    }
    lemma_fold_keeps(w, n, drop_stepper(), inv);
    match item_drop_system(w) {
        Ok(m) => {
            let folded = fold_slots(w, n, drop_stepper()).unwrap();
            assert forall|j: int| 0 <= j < m.entities.len() implies !holds_intent(
                #[trigger] m.entities[j],
                kind,
            ) by {
                assert(!holds_intent(folded.entities[j], kind));
            }
        },
        Err(_) => {},
    }
    let kept = w.maintained();
    assert forall|j: int| 0 <= j < kept.entities.len() implies !holds_intent(
        #[trigger] kept.entities[j],
        kind,
    ) by {
        assert(!holds_intent(w.entities[j], kind));
    }
    let hurt = damage_system(w);
    assert forall|j: int| 0 <= j < hurt.entities.len() implies !holds_intent(
        #[trigger] hurt.entities[j],
        kind,
    ) by {
        assert(!holds_intent(w.entities[j], kind));
    }
}

/// Removing the intents of a kind leaves the world free of that kind, and
/// free of whatever kind it was free of.
proof fn lemma_cleared_is_free(m: WorldModel, cleared: IntentKind, kind: IntentKind)
    ensures
        free_of(without_intents(m, cleared), cleared),
        free_of(m, kind) ==> free_of(without_intents(m, cleared), kind),
{
    let c = without_intents(m, cleared);
    if free_of(m, kind) {
        assert forall|j: int| 0 <= j < c.entities.len() implies !holds_intent(
            #[trigger] c.entities[j],
            kind,
        ) by {
            assert(!holds_intent(m.entities[j], kind));
        }
    }
}

/// A pass over the systems that goes through leaves no intent behind, of
/// any kind, and no deletion waiting, whatever came of the intents.
pub proof fn theorem_pass_clears_intents(
    w: WorldModel,
    sights: Seq<Seq<Coord>>,
    paths: Seq<PathModel>,
    blasts: Seq<Seq<Coord>>,
    kind: IntentKind,
)
    ensures
        systems_run(w, sights, paths, blasts) matches Ok(m) ==> free_of(m, kind)
            && m.pending_deletions.len() == 0,
{
    let seen = visibility_system(w, sights);
    let acted = monster_ai_system(seen, paths);
    let indexed = map_indexing_system(acted);
    match melee_system(indexed) {
        Err(_) => {},
        Ok(fought) => {
            let n = indexed.entities.len() as int;
            let folded = fold_slots(indexed, n, melee_stepper()).unwrap();
            lemma_cleared_is_free(folded, IntentKind::Melee, IntentKind::Melee);
            let hurt = damage_system(fought);
            lemma_item_systems_keep_free(fought, blasts, IntentKind::Melee);
            lemma_item_systems_keep_free(hurt, blasts, IntentKind::Melee);
            match item_collection_system(hurt) {
                Err(_) => {},
                Ok(collected) => {
                    let folded = fold_slots(
                        hurt,
                        hurt.entities.len() as int,
                        collect_stepper(),
                    ).unwrap();
                    lemma_cleared_is_free(folded, IntentKind::Pickup, IntentKind::Pickup);
                    lemma_item_systems_keep_free(collected, blasts, IntentKind::Melee);
                    lemma_item_systems_keep_free(collected, blasts, IntentKind::Pickup);
                    match item_use_system(collected, blasts) {
                        Err(_) => {},
                        Ok(used) => {
                            let folded = fold_slots(
                                collected,
                                collected.entities.len() as int,
                                use_stepper(blasts),
                            ).unwrap();
                            lemma_cleared_is_free(folded, IntentKind::UseItem, IntentKind::UseItem);
                            lemma_item_systems_keep_free(used, blasts, IntentKind::Melee);
                            lemma_item_systems_keep_free(used, blasts, IntentKind::Pickup);
                            lemma_item_systems_keep_free(used, blasts, IntentKind::UseItem);
                            match item_drop_system(used) {
                                Err(_) => {},
                                Ok(dropped) => {
                                    let folded = fold_slots(
                                        used,
                                        used.entities.len() as int,
                                        drop_stepper(),
                                    ).unwrap();
                                    lemma_cleared_is_free(
                                        folded,
                                        IntentKind::DropItem,
                                        IntentKind::DropItem,
                                    );
                                    lemma_item_systems_keep_free(dropped, blasts, IntentKind::Melee);
                                    lemma_item_systems_keep_free(dropped, blasts, IntentKind::Pickup);
                                    lemma_item_systems_keep_free(dropped, blasts, IntentKind::UseItem);
                                    lemma_item_systems_keep_free(
                                        dropped,
                                        blasts,
                                        IntentKind::DropItem,
                                    );
                                },
                            }
                        },
                    }
                },
            }
        },
    }
}

/// After a tick no one is left without hit points, except perhaps the
/// player.
pub proof fn theorem_tick_leaves_no_dead(
    w: WorldModel,
    command: Option<Command>,
    key: Option<MenuKey>,
    mouse: Coord,
    left_click: bool,
    paths: Seq<PathModel>,
    sights: Seq<Seq<Coord>>,
    blasts: Seq<Seq<Coord>>,
)
    ensures
        ticked(w, command, key, mouse, left_click, paths, sights, blasts) matches Ok((m, _))
            ==> forall|i: int| 0 <= i < m.entities.len() ==> !dies(#[trigger] m.entities[i]),
{
}

} // verus!
