//! Taking over a world that was stored earlier. Reading and writing the
//! store is left to the caller.

use vstd::prelude::*;
use crate::components::{Entity, EntityModel};
use crate::geometry::Coord;
use crate::map::MapModel;
use crate::state::RunState;
use crate::world::{World, WorldModel};

verus! {

/// The player of a stored world among slots `0 .. n`: the last entity that
/// is marked as the player and has a position, with that position.
pub open spec fn stored_player(entities: Seq<EntityModel>, n: int) -> Option<(Entity, Coord)>
    decreases n,
{
    if n <= 0 {
        None
    } else {
        let e = entities[n - 1];
        if e.player is Some && e.position is Some {
            Some((Entity { id: (n - 1) as usize }, e.position.unwrap().point()))
        } else {
            stored_player(entities, n - 1)
        }
    }
}

/// The world after `saved` has been loaded into it. Entities and level are
/// those of `saved`, with nobody entered on any tile yet. The player is the
/// one that the stored entities show, or failing that the one that `saved`
/// names. The log stays, and the game awaits input.
pub open spec fn loaded(current: WorldModel, saved: WorldModel) -> WorldModel {
    let found = stored_player(saved.entities, saved.entities.len() as int);
    WorldModel {
        entities: saved.entities,
        map: MapModel { tile_contents: saved.map.emptied(), ..saved.map },
        player: match found {
            Some((e, _)) => e,
            None => saved.player,
        },
        player_position: match found {
            Some((_, p)) => p,
            None => saved.player_position,
        },
        run_state: RunState::AwaitingInput,
        log: current.log,
        pending_deletions: Seq::empty(),
    }
}

/// Replaces the world by one that was stored earlier.
pub fn load_game(ecs: &mut World, saved: World)
    requires
        saved.wf(),
    ensures
        final(ecs)@ == loaded(old(ecs)@, saved@),
        final(ecs).wf(),
{
    let World { entities, map, player, player_position, run_state: _, log: _, pending_deletions: _ } =
        saved;
    ecs.entities = entities;
    ecs.map = map;
    ecs.map.clear_all_tiles_contents();
    ecs.player = player;
    ecs.player_position = player_position;
    ecs.run_state = RunState::AwaitingInput;
    ecs.pending_deletions = Vec::new();
    let n = ecs.entities.len();
    let mut found: Option<(Entity, Coord)> = None;
    let mut i: usize = 0;
    while i < n
        invariant
            i <= n,
            n == ecs.entities@.len(),
            ecs.entities == saved.entities,
            saved.wf(),
            found == stored_player(saved@.entities, i as int),
            found matches Some((_, p)) ==> saved@.map.in_bounds(p.x as int, p.y as int),
        decreases n - i,
    {
        proof {
            assert(saved@.slot_wf(i as int));
        }
        let e = &ecs.entities[i];
        match e.position {
            Some(p) => {
                if e.player.is_some() {
                    found = Some((Entity { id: i }, Coord { x: p.x, y: p.y }));
                }
            },
            None => {},
        }
        i += 1;
    }
    match found {
        Some((e, p)) => {
            ecs.player = e;
            ecs.player_position = p;
        },
        None => {},
    }
    proof {
        let m = loaded(old(ecs)@, saved@);
        assert(ecs@.entities =~= m.entities);
        assert(ecs@.pending_deletions =~= m.pending_deletions);
        assert forall|j: int| 0 <= j < ecs@.entities.len() implies #[trigger] ecs@.slot_wf(j) by {
            assert(saved@.slot_wf(j));
        }
    }
}

} // verus!
