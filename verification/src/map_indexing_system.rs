//! Rebuilding the level's record of blocked tiles and of who stands where.

use vstd::prelude::*;
use crate::components::Entity;
use crate::map::{lemma_idx_in_range, MapModel};
use crate::world::{fold_slots, Fault, Step, World, WorldModel};

verus! {

/// The level after the entity in slot `i` has been entered in its tile's
/// occupant list, and has blocked the tile if it is one that blocks.
pub open spec fn index_step(m: WorldModel, i: int) -> WorldModel {
    let e = m.entities[i];
    match e.position {
        Some(p) => {
            let k = m.map.idx(p.x as int, p.y as int);
            WorldModel {
                map: MapModel {
                    blocked_tiles: if e.blocks_tile is Some {
                        m.map.blocked_tiles.update(k, true)
                    } else {
                        m.map.blocked_tiles
                    },
                    tile_contents: m.map.tile_contents.update(
                        k,
                        m.map.tile_contents[k].push(Entity { id: i as usize }),
                    ),
                    ..m.map
                },
                ..m
            }
        },
        None => m,
    }
}

pub open spec fn index_stepper() -> spec_fn(WorldModel, int) -> Step {
    |m: WorldModel, i: int| Ok(index_step(m, i))
}

/// The world with blocking reset to what the terrain gives and all
/// occupant lists emptied.
pub open spec fn index_cleared(w: WorldModel) -> WorldModel {
    WorldModel {
        map: MapModel {
            blocked_tiles: w.map.terrain_blocked(),
            tile_contents: w.map.emptied(),
            ..w.map
        },
        ..w
    }
}

/// The indexing system: blocking and occupancy are rebuilt from nothing,
/// entity by entity in slot order.
pub open spec fn map_indexing_system(w: WorldModel) -> WorldModel {
    fold_slots(index_cleared(w), w.entities.len() as int, index_stepper()).unwrap()
}

/// Indexing never faults and changes nothing but the level's blocking and
/// occupancy tables, whose sizes it keeps.
pub proof fn lemma_index_fold(w: WorldModel, n: int)
    requires
        0 <= n <= w.entities.len(),
        w.wf(),
    ensures
        fold_slots(w, n, index_stepper()) is Ok,
        ({
            let m = fold_slots(w, n, index_stepper()).unwrap();
            &&& m.wf()
            &&& m == WorldModel {
                map: MapModel {
                    blocked_tiles: m.map.blocked_tiles,
                    tile_contents: m.map.tile_contents,
                    ..w.map
                },
                ..w
            }
        }),
    decreases n,
{
    if n > 0 {
        lemma_index_fold(w, n - 1);
        let m = fold_slots(w, n - 1, index_stepper()).unwrap();
        assert(m.slot_wf(n - 1));
        match m.entities[n - 1].position {
            Some(p) => {
                lemma_idx_in_range(m.map, p.x as int, p.y as int);
            },
            None => {},
        }
        let m2 = index_step(m, n - 1);
        assert forall|j: int| 0 <= j < m2.entities.len() implies #[trigger] m2.slot_wf(j) by {
            assert(m.slot_wf(j));
        }
    }
}

/// Rebuilds the level's record of which tiles are blocked and who stands
/// where.
pub struct MapIndexingSystem {}

impl MapIndexingSystem {
    /// Rebuilds both tables from nothing: first from the terrain, then
    /// from where each entity stands.
    pub fn run(&mut self, world: &mut World)
        requires
            old(world).wf(),
        ensures
            final(world)@ == map_indexing_system(old(world)@),
            final(world).wf(),
    {
        world.map.calculate_blocked_tiles();
        world.map.clear_all_tiles_contents();
        let ghost start = world@;
        proof {
            assert(world@.entities =~= old(world)@.entities);
            assert(start == index_cleared(old(world)@));
            assert forall|j: int| 0 <= j < start.entities.len() implies #[trigger] start.slot_wf(
                j,
            ) by {
                assert(old(world)@.slot_wf(j));
            }
        }
        let n = world.entities.len();
        let mut i: usize = 0;
        while i < n
            invariant
                i <= n,
                n == world@.entities.len(),
                n == start.entities.len(),
                start.wf(),
                world.wf(),
                fold_slots(start, i as int, index_stepper()) == Ok::<WorldModel, Fault>(world@),
            decreases n - i,
        {
            let ghost before = world@;
            proof {
                assert(world@.slot_wf(i as int));
                assert(fold_slots(start, i + 1, index_stepper()) == Ok::<WorldModel, Fault>(
                    index_step(before, i as int),
                ));
                lemma_index_fold(start, i + 1);
            }
            match world.entities[i].position {
                Some(p) => {
                    let index = world.map.xy_idx(p.x, p.y);
                    if world.entities[i].blocks_tile.is_some() {
                        world.map.blocked_tiles[index] = true;
                    }
                    world.map.tile_contents[index].push(Entity { id: i });
                    proof {
                        let m = index_step(before, i as int);
                        assert(world@.entities =~= m.entities);
                        assert forall|k: int|
                            0 <= k < m.map.tile_contents.len() implies world@.map.tile_contents[k]
                            =~= m.map.tile_contents[k] by {}
                        assert(world@.map.tile_contents =~= m.map.tile_contents);
                        assert(world@.map.blocked_tiles =~= m.map.blocked_tiles);
                    }
                },
                None => {},
            }
            i += 1;
        }
    }
}

} // verus!
