//! Keeping fields of view, and the player's knowledge of the level, up to
//! date.

use vstd::prelude::*;
use crate::components::{EntityModel, ViewshedModel};
use crate::fov::{field_of_view, is_field_of_view};
use crate::geometry::Coord;
use crate::map::MapModel;
use crate::world::{fold_slots, Fault, Step, World, WorldModel};

verus! {

/// Whether the entity's field of view is stale and can be recomputed.
pub open spec fn needs_refresh(e: EntityModel) -> bool {
    &&& e.position is Some
    &&& e.viewshed matches Some(v) && v.dirty
}

/// The level as the player knows it after seeing exactly `tiles`: those
/// are visible, nothing else is, and whatever was ever visible stays
/// revealed.
pub open spec fn seen(map: MapModel, tiles: Seq<Coord>) -> MapModel {
    MapModel {
        visible_tiles: Seq::new(map.visible_tiles.len(), |k: int| map.marked(tiles, k)),
        revealed_tiles: Seq::new(
            map.revealed_tiles.len(),
            |k: int| map.revealed_tiles[k] || map.marked(tiles, k),
        ),
        ..map
    }
}

/// The world after slot `i` has been given `tiles` as its field of view.
/// Nothing happens unless the slot's field of view was stale. Tiles off
/// the level are dropped. If the entity is a player, the level's record of
/// what is visible and revealed follows.
pub open spec fn refresh_step(m: WorldModel, i: int, tiles: Seq<Coord>) -> WorldModel {
    let e = m.entities[i];
    if !needs_refresh(e) {
        m
    } else {
        let kept = m.map.kept(tiles, false);
        let refreshed = EntityModel {
            viewshed: Some(
                ViewshedModel { visible_tiles: kept, range: e.viewshed.unwrap().range, dirty: false },
            ),
            ..e
        };
        WorldModel {
            entities: m.entities.update(i, refreshed),
            map: if e.player is Some {
                seen(m.map, kept)
            } else {
                m.map
            },
            ..m
        }
    }
}

pub open spec fn visibility_stepper(sights: Seq<Seq<Coord>>) -> spec_fn(WorldModel, int) -> Step {
    |m: WorldModel, i: int| Ok(refresh_step(m, i, sights[i]))
}

/// The visibility system, given for each slot the tiles that its entity
/// sees: every stale field of view is replaced, in slot order.
pub open spec fn visibility_system(w: WorldModel, sights: Seq<Seq<Coord>>) -> WorldModel {
    fold_slots(w, w.entities.len() as int, visibility_stepper(sights)).unwrap()
}

/// Whether `sights` holds, for every slot of `w` whose field of view is
/// stale, a field of view computed from that entity's position and range.
pub open spec fn sights_fit(w: WorldModel, sights: Seq<Seq<Coord>>) -> bool {
    &&& sights.len() == w.entities.len()
    &&& forall|i: int|
        0 <= i < w.entities.len() && needs_refresh(#[trigger] w.entities[i]) ==> is_field_of_view(
            w.map,
            w.entities[i].position.unwrap().point(),
            w.entities[i].viewshed.unwrap().range,
            sights[i],
        )
}

/// A fold of refresh steps never faults, keeps the number of slots, leaves
/// the terrain and each later slot alone.
pub proof fn lemma_visibility_fold(w: WorldModel, sights: Seq<Seq<Coord>>, n: int)
    requires
        0 <= n <= w.entities.len(),
    ensures
        fold_slots(w, n, visibility_stepper(sights)) is Ok,
        ({
            let m = fold_slots(w, n, visibility_stepper(sights)).unwrap();
            &&& m.entities.len() == w.entities.len()
            &&& m.map.tiles == w.map.tiles
            &&& m.map.width == w.map.width
            &&& m.map.height == w.map.height
            &&& forall|j: int| n <= j < w.entities.len() ==> m.entities[j] == w.entities[j]
        }),
    decreases n,
{
    if n > 0 {
        lemma_visibility_fold(w, sights, n - 1);
    }
}

/// Only the part of `sights` below `n` matters to a fold over `n` slots.
pub proof fn lemma_visibility_fold_prefix(
    w: WorldModel,
    a: Seq<Seq<Coord>>,
    b: Seq<Seq<Coord>>,
    n: int,
)
    requires
        0 <= n <= w.entities.len(),
        forall|j: int| 0 <= j < n ==> a[j] == b[j],
    ensures
        fold_slots(w, n, visibility_stepper(a)) == fold_slots(w, n, visibility_stepper(b)),
    decreases n,
{
    if n > 0 {
        lemma_visibility_fold_prefix(w, a, b, n - 1);
    }
}

/// Keeps each entity's field of view, and the player's knowledge of the
/// level, up to date.
pub struct VisibilitySystem {}

impl VisibilitySystem {
    /// Gives the entity in slot `i` the tiles `tiles` as its field of view,
    /// if its field of view is stale.
    pub fn refresh(world: &mut World, i: usize, tiles: &Vec<Coord>)
        requires
            old(world).wf(),
            i < old(world)@.entities.len(),
        ensures
            final(world)@ == refresh_step(old(world)@, i as int, tiles@),
            final(world).wf(),
    {
        let stale = world.entities[i].position.is_some() && match &world.entities[i].viewshed {
            Some(v) => v.dirty,
            None => false,
        };
        if !stale {
            return ;
        }
        let kept = world.map.retain_tiles(tiles, false);
        if world.entities[i].player.is_some() {
            let n = world.map.visible_tiles.len();
            let mut k: usize = 0;
            while k < n
                invariant
                    k <= n,
                    n == world.map.visible_tiles@.len(),
                    world.entities == old(world).entities,
                    world.player == old(world).player,
                    world.player_position == old(world).player_position,
                    world.run_state == old(world).run_state,
                    world.log == old(world).log,
                    world.pending_deletions == old(world).pending_deletions,
                    world.map.tiles == old(world).map.tiles,
                    world.map.rooms == old(world).map.rooms,
                    world.map.width == old(world).map.width,
                    world.map.height == old(world).map.height,
                    world.map.depth == old(world).map.depth,
                    world.map.revealed_tiles == old(world).map.revealed_tiles,
                    world.map.blocked_tiles == old(world).map.blocked_tiles,
                    world.map.tile_contents == old(world).map.tile_contents,
                    forall|j: int| 0 <= j < k ==> !world.map.visible_tiles@[j],
                decreases n - k,
            {
                world.map.visible_tiles[k] = false;
                k += 1;
            }
            let mut t: usize = 0;
            while t < kept.len()
                invariant
                    t <= kept@.len(),
                    old(world).wf(),
                    forall|j: int|
                        0 <= j < kept@.len() ==> old(world)@.map.in_bounds(
                            kept@[j].x as int,
                            kept@[j].y as int,
                        ),
                    world.entities == old(world).entities,
                    world.player == old(world).player,
                    world.player_position == old(world).player_position,
                    world.run_state == old(world).run_state,
                    world.log == old(world).log,
                    world.pending_deletions == old(world).pending_deletions,
                    world.map.tiles == old(world).map.tiles,
                    world.map.rooms == old(world).map.rooms,
                    world.map.width == old(world).map.width,
                    world.map.height == old(world).map.height,
                    world.map.depth == old(world).map.depth,
                    world.map.blocked_tiles == old(world).map.blocked_tiles,
                    world.map.tile_contents == old(world).map.tile_contents,
                    world.map.visible_tiles@.len() == old(world).map.visible_tiles@.len(),
                    world.map.revealed_tiles@.len() == old(world).map.revealed_tiles@.len(),
                    forall|j: int|
                        0 <= j < world.map.visible_tiles@.len() ==> world.map.visible_tiles@[j]
                            == old(world)@.map.marked(kept@.take(t as int), j),
                    forall|j: int|
                        0 <= j < world.map.revealed_tiles@.len() ==> world.map.revealed_tiles@[j]
                            == (old(world).map.revealed_tiles@[j] || old(world)@.map.marked(
                            kept@.take(t as int),
                            j,
                        )),
                decreases kept@.len() - t,
            {
                let tile = kept[t];
                let ghost m0 = old(world)@.map;
                let ghost prefix = kept@.take(t as int);
                let ghost longer = kept@.take(t + 1);
                let index = world.map.xy_idx(tile.x, tile.y);
                world.map.revealed_tiles[index] = true;
                world.map.visible_tiles[index] = true;
                proof {
                    assert(longer[t as int] == tile);
                    assert forall|j: int| 0 <= j < m0.area() implies m0.marked(longer, j) == (j
                        == index || m0.marked(prefix, j)) by {
                        if m0.marked(prefix, j) {
                            let w = choose|w: int|
                                0 <= w < prefix.len() && m0.in_bounds(
                                    prefix[w].x as int,
                                    prefix[w].y as int,
                                ) && #[trigger] m0.idx(prefix[w].x as int, prefix[w].y as int)
                                    == j;
                            assert(longer[w] == prefix[w]);
                        }
                        if j == index {
                            assert(m0.idx(longer[t as int].x as int, longer[t as int].y as int)
                                == j);
                        }
                        if m0.marked(longer, j) {
                            let w = choose|w: int|
                                0 <= w < longer.len() && m0.in_bounds(
                                    longer[w].x as int,
                                    longer[w].y as int,
                                ) && #[trigger] m0.idx(longer[w].x as int, longer[w].y as int)
                                    == j;
                            if w < t {
                                assert(prefix[w] == longer[w]);
                            }
                        }
                    }
                }
                t += 1;
            }
            proof {
                assert(kept@.take(t as int) =~= kept@);
            }
        }
        match &mut world.entities[i].viewshed {
            Some(v) => {
                v.dirty = false;
                v.visible_tiles = kept;
            },
            None => {},
        }
        proof {
            let m = refresh_step(old(world)@, i as int, tiles@);
            assert(world@.entities =~= m.entities);
            assert(world@.map.visible_tiles =~= m.map.visible_tiles);
            assert(world@.map.revealed_tiles =~= m.map.revealed_tiles);
            assert(world@.map.tile_contents =~= m.map.tile_contents);
            assert(world@.map == m.map);
            assert forall|j: int| 0 <= j < world@.entities.len() implies #[trigger]
                world@.slot_wf(j) by {
                assert(old(world)@.slot_wf(j));
            }
        }
    }

    /// Recomputes every stale field of view. The tiles come from the
    /// field-of-view computation, which fixes them up to their order.
    pub fn run(&mut self, world: &mut World)
        requires
            old(world).wf(),
        ensures
            exists|sights: Seq<Seq<Coord>>|
                sights_fit(old(world)@, sights) && final(world)@ == #[trigger] visibility_system(
                    old(world)@,
                    sights,
                ),
            final(world).wf(),
    {
        let n = world.entities.len();
        let ghost mut sights: Seq<Seq<Coord>> = Seq::new(n as nat, |i: int| Seq::<Coord>::empty());
        let mut i: usize = 0;
        proof {
            assert(world@.entities.len() == n);
        }
        while i < n
            invariant
                i <= n,
                n == world@.entities.len(),
                n == old(world)@.entities.len(),
                sights.len() == n,
                world.wf(),
                old(world).wf(),
                fold_slots(old(world)@, i as int, visibility_stepper(sights)) == Ok::<
                    WorldModel,
                    Fault,
                >(world@),
                forall|j: int|
                    0 <= j < i && needs_refresh(#[trigger] old(world)@.entities[j])
                        ==> is_field_of_view(
                        old(world)@.map,
                        old(world)@.entities[j].position.unwrap().point(),
                        old(world)@.entities[j].viewshed.unwrap().range,
                        sights[j],
                    ),
            decreases n - i,
        {
            let ghost before = world@;
            let ghost earlier = sights;
            proof {
                lemma_visibility_fold(old(world)@, earlier, i as int);
                assert(before.entities[i as int] == old(world)@.entities[i as int]);
                assert(world@.slot_wf(i as int));
            }
            let request = match (&world.entities[i].position, &world.entities[i].viewshed) {
                (Some(p), Some(v)) => {
                    if v.dirty {
                        Some((Coord { x: p.x, y: p.y }, v.range))
                    } else {
                        None
                    }
                },
                _ => None,
            };
            match request {
                Some((center, range)) => {
                    let tiles = field_of_view(&world.map, center, range);
                    proof {
                        sights = sights.update(i as int, tiles@);
                        assert(world@.map.opacity() =~= old(world)@.map.opacity());
                    }
                    Self::refresh(world, i, &tiles);
                },
                None => {
                    proof {
                        assert(refresh_step(before, i as int, sights[i as int]) == before);
                    }
                },
            }
            proof {
                lemma_visibility_fold_prefix(old(world)@, earlier, sights, i as int);
                assert(fold_slots(old(world)@, i + 1, visibility_stepper(sights))
                    == visibility_stepper(sights)(before, i as int));
            }
            i += 1;
        }
        proof {
            assert(sights_fit(old(world)@, sights));
            assert(world@ == visibility_system(old(world)@, sights));
        }
    }
}

} // verus!
