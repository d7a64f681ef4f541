//! What the monsters do on their turn. Routes are found by the caller and
//! handed in.

use vstd::prelude::*;
use crate::components::{Confusion, Entity, EntityModel, Position, ViewshedModel, WantsToMelee};
use crate::geometry::{spec_within_melee_range, within_melee_range, Coord};
use crate::map::{lemma_idx_in_range, lemma_idx_split, MapModel};
use crate::state::RunState;
use crate::world::{fold_slots, Fault, Step, World, WorldModel};

verus! {

/// A route that a monster asks for: from tile `start` to tile `end`, both
/// given as positions in the tile tables.
#[derive(Clone, Copy, Debug, PartialEq, Eq, Structural)]
pub struct PathRequest {
    pub monster: Entity,
    pub start: usize,
    pub end: usize,
}

/// The answer to a `PathRequest`: whether a route exists, and its tiles
/// from the start to the end, both included.
#[derive(Debug)]
pub struct PathAnswer {
    pub monster: Entity,
    pub success: bool,
    pub steps: Vec<usize>,
}

pub struct PathModel {
    pub monster: Entity,
    pub success: bool,
    pub steps: Seq<usize>,
}

impl View for PathAnswer {
    type V = PathModel;

    open spec fn view(&self) -> PathModel {
        PathModel { monster: self.monster, success: self.success, steps: self.steps@ }
    }
}

pub open spec fn path_models(paths: Seq<PathAnswer>) -> Seq<PathModel> {
    Seq::new(paths.len(), |i: int| paths[i]@)
}

/// The first answer among `paths[from ..]` that is addressed to the
/// monster in slot `i`.
pub open spec fn path_for(paths: Seq<PathModel>, i: int, from: int) -> Option<PathModel>
    decreases paths.len() - from,
{
    if from < 0 || from >= paths.len() {
        None
    } else if paths[from].monster.id == i {
        Some(paths[from])
    } else {
        path_for(paths, i, from + 1)
    }
}

/// Whether the entity in this slot is run by the monster AI at all.
pub open spec fn is_monster(e: EntityModel) -> bool {
    e.monster is Some && e.position is Some && e.viewshed is Some
}

/// Whether the monster looks for a route to the player this turn: it is
/// not confused, not next to the player, and has the player in view.
pub open spec fn seeks_path(m: WorldModel, i: int) -> bool {
    let e = m.entities[i];
    &&& is_monster(e)
    &&& e.confusion is None
    &&& !spec_within_melee_range(e.position.unwrap().point(), m.player_position)
    &&& e.viewshed.unwrap().visible_tiles.contains(m.player_position)
}

/// The tile that a route makes the monster at tile `here` step onto, if it
/// has one: the second tile of a successful route that starts at `here`,
/// provided the level has an exit from `here` to it.
pub open spec fn next_tile(map: MapModel, here: int, path: Option<PathModel>) -> Option<int> {
    match path {
        Some(p) => if p.success && p.steps.len() > 1 && p.steps[0] == here
            && map.available_exits(here).contains(p.steps[1]) {
            Some(p.steps[1] as int)
        } else {
            None
        },
        None => None,
    }
}

/// Every exit from a tile of the level leads to a tile of the level, one
/// step west, east, north or south, that is not a wall.
pub proof fn lemma_exits_on_level(map: MapModel, here: int, k: usize)
    requires
        map.wf(),
        0 <= here < map.area(),
        map.available_exits(here).contains(k),
    ensures
        0 <= k < map.area(),
        map.tiles[k as int] != crate::map::TileType::Wall,
        ({
            let x = here % (map.width as int);
            let y = here / (map.width as int);
            ||| map.in_bounds(x - 1, y) && k == map.idx(x - 1, y)
            ||| map.in_bounds(x + 1, y) && k == map.idx(x + 1, y)
            ||| map.in_bounds(x, y - 1) && k == map.idx(x, y - 1)
            ||| map.in_bounds(x, y + 1) && k == map.idx(x, y + 1)
        }),
{
    let x = here % (map.width as int);
    let y = here / (map.width as int);
    lemma_idx_split(map, here);
    let exits = map.available_exits(here);
    let j = choose|j: int| 0 <= j < exits.len() && exits[j] == k;
    if map.exit_valid(x - 1, y) {
        lemma_idx_in_range(map, x - 1, y);
    }
    if map.exit_valid(x + 1, y) {
        lemma_idx_in_range(map, x + 1, y);
    }
    if map.exit_valid(x, y - 1) {
        lemma_idx_in_range(map, x, y - 1);
        assert((y - 1) * map.width == y * map.width - map.width) by (nonlinear_arith);
    }
    if map.exit_valid(x, y + 1) {
        lemma_idx_in_range(map, x, y + 1);
        assert((y + 1) * map.width == y * map.width + map.width) by (nonlinear_arith);
    }
}

/// One turn of the monster in slot `i`. A confused monster counts down
/// and does nothing else, shedding its confusion when the count runs out. A
/// monster next to the player decides to attack. One that sees the player
/// takes the first step of its route, if it was given one that starts
/// where it stands and leaves by an exit of the level, freeing the tile it
/// leaves and blocking the one it enters.
pub open spec fn monster_step(m: WorldModel, i: int, paths: Seq<PathModel>) -> WorldModel {
    let e = m.entities[i];
    if !is_monster(e) {
        m
    } else if e.confusion is Some {
        let turns = e.confusion.unwrap().turns;
        m.with_entity(
            i,
            EntityModel {
                confusion: if turns - 1 < 1 {
                    None
                } else {
                    Some(Confusion { turns: (turns - 1) as i32 })
                },
                ..e
            },
        )
    } else if spec_within_melee_range(e.position.unwrap().point(), m.player_position) {
        m.with_entity(i, EntityModel { wants_to_melee: Some(WantsToMelee { target: m.player }), ..e })
    } else if e.viewshed.unwrap().visible_tiles.contains(m.player_position) {
        match next_tile(
            m.map,
            m.map.idx(e.position.unwrap().x as int, e.position.unwrap().y as int),
            path_for(paths, i, 0),
        ) {
            Some(k) => {
                let p = e.position.unwrap();
                let w = m.map.width as int;
                WorldModel {
                    entities: m.entities.update(
                        i,
                        EntityModel {
                            position: Some(Position { x: (k % w) as i32, y: (k / w) as i32 }),
                            viewshed: Some(ViewshedModel { dirty: true, ..e.viewshed.unwrap() }),
                            ..e
                        },
                    ),
                    map: MapModel {
                        blocked_tiles: m.map.blocked_tiles.update(
                            m.map.idx(p.x as int, p.y as int),
                            false,
                        ).update(k, true),
                        ..m.map
                    },
                    ..m
                }
            },
            None => m,
        }
    } else {
        m
    }
}

pub open spec fn monster_stepper(paths: Seq<PathModel>) -> spec_fn(WorldModel, int) -> Step {
    |m: WorldModel, i: int| Ok(monster_step(m, i, paths))
}

/// The monster AI as a whole. It acts only during the monsters' turn;
/// then every monster takes its turn, in slot order.
pub open spec fn monster_ai_system(w: WorldModel, paths: Seq<PathModel>) -> WorldModel {
    if w.run_state != RunState::MonsterTurn {
        w
    } else {
        fold_slots(w, w.entities.len() as int, monster_stepper(paths)).unwrap()
    }
}

/// The routes that the monsters in slots `0 .. n` look for, in slot order.
pub open spec fn requests_upto(w: WorldModel, n: int) -> Seq<PathRequest>
    decreases n,
{
    if n <= 0 {
        Seq::empty()
    } else {
        let before = requests_upto(w, n - 1);
        if seeks_path(w, n - 1) {
            let p = w.entities[n - 1].position.unwrap();
            before.push(
                PathRequest {
                    monster: Entity { id: (n - 1) as usize },
                    start: w.map.idx(p.x as int, p.y as int) as usize,
                    end: w.map.idx(w.player_position.x as int, w.player_position.y as int) as usize,
                },
            )
        } else {
            before
        }
    }
}

/// The routes that the monster AI will want when it next runs.
pub open spec fn path_requests(w: WorldModel) -> Seq<PathRequest> {
    if w.run_state != RunState::MonsterTurn {
        Seq::empty()
    } else {
        requests_upto(w, w.entities.len() as int)
    }
}

/// A monster's turn keeps the world well formed.
pub proof fn lemma_monster_step_wf(m: WorldModel, i: int, paths: Seq<PathModel>)
    requires
        0 <= i < m.entities.len(),
        m.wf(),
    ensures
        monster_step(m, i, paths).wf(),
{
    let m2 = monster_step(m, i, paths);
    let e = m.entities[i];
    assert(m.slot_wf(i));
    if is_monster(e) {
        let p = e.position.unwrap();
        lemma_idx_in_range(m.map, p.x as int, p.y as int);
        let here = m.map.idx(p.x as int, p.y as int);
        match next_tile(m.map, here, path_for(paths, i, 0)) {
            Some(k) => {
                lemma_exits_on_level(m.map, here, k as usize);
                lemma_idx_split(m.map, k);
            },
            None => {},
        }
    }
    assert forall|j: int| 0 <= j < m2.entities.len() implies #[trigger] m2.slot_wf(j) by {
        assert(m.slot_wf(j));
    }
}

fn sees(tiles: &Vec<Coord>, p: Coord) -> (r: bool)
    ensures
        r == tiles@.contains(p),
{
    let mut i: usize = 0;
    while i < tiles.len()
        invariant
            i <= tiles@.len(),
            forall|j: int| 0 <= j < i ==> tiles@[j] != p,
        decreases tiles@.len() - i,
    {
        if tiles[i].x == p.x && tiles[i].y == p.y {
            return true;
        }
        i += 1;
    }
    false
}

fn leads_to(exits: &Vec<usize>, k: usize) -> (r: bool)
    ensures
        r == exits@.contains(k),
{
    let mut i: usize = 0;
    while i < exits.len()
        invariant
            i <= exits@.len(),
            forall|j: int| 0 <= j < i ==> exits@[j] != k,
        decreases exits@.len() - i,
    {
        if exits[i] == k {
            return true;
        }
        i += 1;
    }
    false
}

fn find_path(paths: &Vec<PathAnswer>, i: usize) -> (r: Option<usize>)
    ensures
        match r {
            Some(k) => k < paths@.len() && path_for(path_models(paths@), i as int, 0) == Some(
                paths@[k as int]@,
            ),
            None => path_for(path_models(paths@), i as int, 0) is None,
        },
{
    let mut k: usize = 0;
    while k < paths.len()
        invariant
            k <= paths@.len(),
            path_for(path_models(paths@), i as int, 0) == path_for(
                path_models(paths@),
                i as int,
                k as int,
            ),
        decreases paths@.len() - k,
    {
        if paths[k].monster.id == i {
            return Some(k);
        }
        k += 1;
    }
    None
}

/// Decides what each monster does on the monsters' turn.
pub struct MonsterAI {}

impl MonsterAI {
    /// Lists the routes that `run` will consult if it is called next.
    pub fn plan(&self, world: &World) -> (requests: Vec<PathRequest>)
        requires
            world.wf(),
        ensures
            requests@ == path_requests(world@),
    {
        let mut requests: Vec<PathRequest> = Vec::new();
        if world.run_state != RunState::MonsterTurn {
            return requests;
        }
        let n = world.entities.len();
        let mut i: usize = 0;
        while i < n
            invariant
                i <= n,
                n == world@.entities.len(),
                world.wf(),
                requests@ == requests_upto(world@, i as int),
            decreases n - i,
        {
            proof {
                assert(world@.slot_wf(i as int));
            }
            let e = &world.entities[i];
            match (&e.position, &e.viewshed) {
                (Some(p), Some(v)) => {
                    if e.monster.is_some() && e.confusion.is_none() && !within_melee_range(
                        Coord { x: p.x, y: p.y },
                        world.player_position,
                    ) && sees(&v.visible_tiles, world.player_position) {
                        let start = world.map.xy_idx(p.x, p.y);
                        let end = world.map.xy_idx(
                            world.player_position.x,
                            world.player_position.y,
                        );
                        requests.push(PathRequest { monster: Entity { id: i }, start, end });
                    }
                },
                _ => {},
            }
            i += 1;
        }
        requests
    }

    /// Runs every monster's turn, given the routes that were found for
    /// those that asked. A monster without an answer stays where it is.
    pub fn run(&mut self, world: &mut World, paths: &Vec<PathAnswer>)
        requires
            old(world).wf(),
        ensures
            final(world)@ == monster_ai_system(old(world)@, path_models(paths@)),
            final(world).wf(),
    {
        if world.run_state != RunState::MonsterTurn {
            return ;
        }
        let n = world.entities.len();
        let mut i: usize = 0;
        while i < n
            invariant
                i <= n,
                n == world@.entities.len(),
                n == old(world)@.entities.len(),
                world.wf(),
                fold_slots(old(world)@, i as int, monster_stepper(path_models(paths@))) == Ok::<
                    WorldModel,
                    Fault,
                >(world@),
            decreases n - i,
        {
            let ghost before = world@;
            proof {
                assert(fold_slots(old(world)@, i + 1, monster_stepper(path_models(paths@)))
                    == Ok::<WorldModel, Fault>(
                    monster_step(before, i as int, path_models(paths@)),
                ));
            }
            Self::act(world, i, paths);
            i += 1;
        }
    }

    fn act(world: &mut World, i: usize, paths: &Vec<PathAnswer>)
        requires
            old(world).wf(),
            i < old(world)@.entities.len(),
        ensures
            final(world)@ == monster_step(old(world)@, i as int, path_models(paths@)),
            final(world).wf(),
    {
        proof {
            lemma_monster_step_wf(old(world)@, i as int, path_models(paths@));
            assert(old(world)@.slot_wf(i as int));
        }
        let p = match world.entities[i].position {
            Some(p) => p,
            None => {
                return ;
            },
        };
        if world.entities[i].monster.is_none() || world.entities[i].viewshed.is_none() {
            return ;
        }
        match world.entities[i].confusion {
            Some(c) => {
                if c.turns <= 1 {
                    world.entities[i].confusion = None;
                } else {
                    world.entities[i].confusion = Some(Confusion { turns: c.turns - 1 });
                }
                proof {
                    let m = monster_step(old(world)@, i as int, path_models(paths@));
                    assert(world@.entities =~= m.entities);
                }
                return ;
            },
            None => {},
        }
        if within_melee_range(Coord { x: p.x, y: p.y }, world.player_position) {
            world.entities[i].wants_to_melee = Some(WantsToMelee { target: world.player });
            proof {
                let m = monster_step(old(world)@, i as int, path_models(paths@));
                assert(world@.entities =~= m.entities);
            }
            return ;
        }
        let in_view = match &world.entities[i].viewshed {
            Some(v) => sees(&v.visible_tiles, world.player_position),
            None => false,
        };
        if !in_view {
            return ;
        }
        let found = find_path(paths, i);
        let k = match found {
            Some(k) => k,
            None => {
                return ;
            },
        };
        let path = &paths[k];
        if !(path.success && path.steps.len() > 1) {
            return ;
        }
        let next = path.steps[1];
        let here = world.map.xy_idx(p.x, p.y);
        if path.steps[0] != here {
            return ;
        }
        let exits = world.map.get_available_exits(here);
        if !leads_to(&exits, next) {
            return ;
        }
        proof {
            lemma_exits_on_level(world@.map, here as int, next);
        }
        let there = world.map.idx_xy(next);
        world.map.blocked_tiles[here] = false;
        world.entities[i].position = Some(Position { x: there.x, y: there.y });
        world.map.blocked_tiles[next] = true;
        match &mut world.entities[i].viewshed {
            Some(v) => {
                v.dirty = true;
            },
            None => {},
        }
        proof {
            let m = monster_step(old(world)@, i as int, path_models(paths@));
            assert(world@.entities =~= m.entities);
            assert(world@.map.blocked_tiles =~= m.map.blocked_tiles);
            assert(world@.map.tile_contents =~= m.map.tile_contents);
        }
    }
}

} // verus!
