//! Commands from the keyboard and what they do to the player.

use vstd::prelude::*;
use crate::components::{Entity, EntityModel, Position, ViewshedModel, WantsToMelee, WantsToPickupItem};
use crate::geometry::Coord;
use crate::map::TileType;
use crate::state::{RunState, State};
use crate::text::{
    no_way_down_line,
    nothing_to_pick_up_line,
    spec_no_way_down_line,
    spec_nothing_to_pick_up_line,
};
use crate::world::{Fault, Step, World, WorldModel};

verus! {

/// What the person at the keyboard can ask for while the game waits for
/// input.
#[derive(Clone, Copy, Debug, PartialEq, Eq, Structural)]
pub enum Command {
    Left,
    Right,
    Up,
    Down,
    UpRight,
    UpLeft,
    DownRight,
    DownLeft,
    PickUp,
    Inventory,
    DropItem,
    Descend,
    Skip,
    SaveAndExit,
}

impl Command {
    /// The step that a movement command asks for, as a change of x and y.
    pub open spec fn spec_delta(self) -> Option<(i32, i32)> {
        match self {
            Command::Left => Some((-1i32, 0i32)),
            Command::Right => Some((1i32, 0i32)),
            Command::Up => Some((0i32, -1i32)),
            Command::Down => Some((0i32, 1i32)),
            Command::UpRight => Some((1i32, -1i32)),
            Command::UpLeft => Some((-1i32, -1i32)),
            Command::DownRight => Some((1i32, 1i32)),
            Command::DownLeft => Some((-1i32, 1i32)),
            _ => None,
        }
    }

    #[verifier::when_used_as_spec(spec_delta)]
    pub fn delta(self) -> (d: Option<(i32, i32)>)
        ensures
            d == self.spec_delta(),
    {
        match self {
            Command::Left => Some((-1, 0)),
            Command::Right => Some((1, 0)),
            Command::Up => Some((0, -1)),
            Command::Down => Some((0, 1)),
            Command::UpRight => Some((1, -1)),
            Command::UpLeft => Some((-1, -1)),
            Command::DownRight => Some((1, 1)),
            Command::DownLeft => Some((-1, 1)),
            _ => None,
        }
    }
}

/// The first of `occupants[from ..]` that can be fought, that is, has
/// combat statistics.
pub open spec fn first_fighter(m: WorldModel, occupants: Seq<Entity>, from: int) -> Option<Entity>
    decreases occupants.len() - from,
{
    if from < 0 || from >= occupants.len() {
        None
    } else if occupants[from].id < m.entities.len()
        && m.entities[occupants[from].id as int].combat_stats is Some {
        Some(occupants[from])
    } else {
        first_fighter(m, occupants, from + 1)
    }
}

/// Whether the entity in this slot is moved by the keyboard.
pub open spec fn is_player(e: EntityModel) -> bool {
    e.player is Some && e.position is Some && e.viewshed is Some
}

/// The attempt of the player in slot `i` to step by `(dx, dy)`, and
/// whether it ended in an attack. A step off the level does not happen.
/// A step onto a tile where someone can be fought becomes the intent to
/// attack them. Otherwise the step is taken if the tile is not blocked.
pub open spec fn move_one(m: WorldModel, i: int, dx: i32, dy: i32) -> (WorldModel, bool) {
    let e = m.entities[i];
    if !is_player(e) {
        (m, false)
    } else {
        let p = e.position.unwrap();
        let x = p.x + dx;
        let y = p.y + dy;
        if !m.map.in_bounds(x, y) {
            (m, false)
        } else {
            let k = m.map.idx(x, y);
            match first_fighter(m, m.map.tile_contents[k], 0) {
                Some(target) => (
                    m.with_entity(
                        i,
                        EntityModel { wants_to_melee: Some(WantsToMelee { target }), ..e },
                    ),
                    true,
                ),
                None => {
                    if m.map.blocked_tiles[k] {
                        (m, false)
                    } else {
                        (
                            WorldModel {
                                entities: m.entities.update(
                                    i,
                                    EntityModel {
                                        position: Some(Position { x: x as i32, y: y as i32 }),
                                        viewshed: Some(
                                            ViewshedModel { dirty: true, ..e.viewshed.unwrap() },
                                        ),
                                        ..e
                                    },
                                ),
                                player_position: Coord { x: x as i32, y: y as i32 },
                                ..m
                            },
                            false,
                        )
                    }
                },
            }
        }
    }
}

/// The attempts of the players in slots `0 .. n`, which end with the first
/// attack.
pub open spec fn moved_upto(w: WorldModel, n: int, dx: i32, dy: i32) -> (WorldModel, bool)
    decreases n,
{
    if n <= 0 {
        (w, false)
    } else {
        let (m, done) = moved_upto(w, n - 1, dx, dy);
        if done {
            (m, true)
        } else {
            move_one(m, n - 1, dx, dy)
        }
    }
}

/// The world after the player has tried to step by `(dx, dy)`.
pub open spec fn player_moved(w: WorldModel, dx: i32, dy: i32) -> WorldModel {
    moved_upto(w, w.entities.len() as int, dx, dy).0
}

/// The item to pick up among slots `0 .. n`: the last one that lies where
/// the player stands.
pub open spec fn item_underfoot(w: WorldModel, n: int) -> Option<Entity>
    decreases n,
{
    if n <= 0 {
        None
    } else {
        let e = w.entities[n - 1];
        if e.item is Some && e.position is Some && e.position.unwrap().point()
            == w.player_position {
            Some(Entity { id: (n - 1) as usize })
        } else {
            item_underfoot(w, n - 1)
        }
    }
}

/// The world after the player has tried to pick something up: with the
/// intent to collect the item underfoot, or with a line in the log saying
/// that there is none.
pub open spec fn pickup_tried(w: WorldModel) -> Step {
    match item_underfoot(w, w.entities.len() as int) {
        None => Ok(w.logged(spec_nothing_to_pick_up_line())),
        Some(item) => {
            if !w.is_alive(w.player) {
                Err(Fault::NoSuchEntity)
            } else {
                Ok(
                    w.with_entity(
                        w.player.id as int,
                        EntityModel {
                            wants_to_pickup_item: Some(
                                WantsToPickupItem { collected_by: w.player, item },
                            ),
                            ..w.entities[w.player.id as int]
                        },
                    ),
                )
            }
        },
    }
}

/// Whether the player stands on stairs that lead down.
pub open spec fn on_stairs(w: WorldModel) -> bool {
    w.map.tiles[w.map.idx(w.player_position.x as int, w.player_position.y as int)]
        == TileType::DownStairs
}

/// The world after a command, and the phase that follows. Without a
/// command the game keeps waiting. A menu or a save changes only the
/// phase. Everything else uses up the player's turn, except stairs, which
/// lead to the next level.
pub open spec fn input_handled(w: WorldModel, command: Option<Command>) -> Result<
    (WorldModel, RunState),
    Fault,
> {
    match command {
        None => Ok((w, RunState::AwaitingInput)),
        Some(c) => match c.spec_delta() {
            Some((dx, dy)) => Ok((player_moved(w, dx, dy), RunState::PlayerTurn)),
            None => match c {
                Command::PickUp => match pickup_tried(w) {
                    Ok(m) => Ok((m, RunState::PlayerTurn)),
                    Err(f) => Err(f),
                },
                Command::Inventory => Ok((w, RunState::ShowInventory)),
                Command::DropItem => Ok((w, RunState::ShowDropItem)),
                Command::SaveAndExit => Ok((w, RunState::SaveGame)),
                Command::Descend => if on_stairs(w) {
                    Ok((w, RunState::NextLevel))
                } else {
                    Ok((w.logged(spec_no_way_down_line()), RunState::PlayerTurn))
                },
                _ => Ok((w, RunState::PlayerTurn)),
            },
        },
    }
}

fn find_fighter(world: &World, index: usize) -> (r: Option<Entity>)
    requires
        index < world.map.tile_contents@.len(),
    ensures
        r == first_fighter(world@, world@.map.tile_contents[index as int], 0),
{
    let here = &world.map.tile_contents[index];
    proof {
        assert(world@.map.tile_contents[index as int] == here@);
    }
    let mut k: usize = 0;
    while k < here.len()
        invariant
            k <= here@.len(),
            world@.map.tile_contents[index as int] == here@,
            first_fighter(world@, here@, 0) == first_fighter(world@, here@, k as int),
        decreases here@.len() - k,
    {
        let t = here[k];
        if t.id < world.entities.len() && world.entities[t.id].combat_stats.is_some() {
            return Some(t);
        }
        k += 1;
    }
    None
}

fn step_player(world: &mut World, i: usize, dx: i32, dy: i32) -> (done: bool)
    requires
        old(world).wf(),
        i < old(world)@.entities.len(),
    ensures
        (final(world)@, done) == move_one(old(world)@, i as int, dx, dy),
        final(world).wf(),
{
    let e = &world.entities[i];
    let p = match e.position {
        Some(p) => p,
        None => {
            return false;
        },
    };
    if e.player.is_none() || e.viewshed.is_none() {
        return false;
    }
    let x: i64 = p.x as i64 + dx as i64;
    let y: i64 = p.y as i64 + dy as i64;
    if !(0 <= x && x < world.map.width as i64 && 0 <= y && y < world.map.height as i64) {
        return false;
    }
    let index = world.map.xy_idx(x as i32, y as i32);
    match find_fighter(world, index) {
        Some(target) => {
            world.entities[i].wants_to_melee = Some(WantsToMelee { target });
            proof {
                let m = move_one(old(world)@, i as int, dx, dy).0;
                assert(world@.entities =~= m.entities);
                assert forall|j: int| 0 <= j < world@.entities.len() implies #[trigger]
                    world@.slot_wf(j) by {
                    assert(old(world)@.slot_wf(j));
                }
            }
            true
        },
        None => {
            if !world.map.blocked_tiles[index] {
                world.entities[i].position = Some(Position { x: x as i32, y: y as i32 });
                match &mut world.entities[i].viewshed {
                    Some(v) => {
                        v.dirty = true;
                    },
                    None => {},
                }
                world.player_position = Coord { x: x as i32, y: y as i32 };
                proof {
                    let m = move_one(old(world)@, i as int, dx, dy).0;
                    assert(world@.entities =~= m.entities);
                    assert forall|j: int| 0 <= j < world@.entities.len() implies #[trigger]
                        world@.slot_wf(j) by {
                        assert(old(world)@.slot_wf(j));
                    }
                }
            }
            false
        },
    }
}

/// Tries to move the player by `(dx, dy)`: attacks whoever can be fought
/// on the tile that the step leads to, or else takes the step if nothing
/// blocks it.
pub fn try_move_player(dx: i32, dy: i32, ecs: &mut World)
    requires
        old(ecs).wf(),
    ensures
        final(ecs)@ == player_moved(old(ecs)@, dx, dy),
        final(ecs).wf(),
{
    let n = ecs.entities.len();
    let mut i: usize = 0;
    while i < n
        invariant
            i <= n,
            n == ecs@.entities.len(),
            n == old(ecs)@.entities.len(),
            ecs.wf(),
            moved_upto(old(ecs)@, i as int, dx, dy) == (ecs@, false),
        decreases n - i,
    {
        let done = step_player(ecs, i, dx, dy);
        if done {
            proof {
                lemma_moved_done(old(ecs)@, i + 1, n as int, dx, dy);
            }
            return ;
        }
        i += 1;
    }
}

/// After an attack, the attempts of further slots change nothing.
pub proof fn lemma_moved_done(w: WorldModel, k: int, n: int, dx: i32, dy: i32)
    requires
        0 <= k <= n,
        moved_upto(w, k, dx, dy).1,
    ensures
        moved_upto(w, n, dx, dy) == moved_upto(w, k, dx, dy),
    decreases n - k,
{
    if k < n {
        lemma_moved_done(w, k, n - 1, dx, dy);
    }
}

/// Makes the player want to pick up the item that lies underfoot, or
/// says that there is none.
pub fn try_pickup_item(ecs: &mut World) -> (r: Result<(), Fault>)
    requires
        old(ecs).wf(),
    ensures
        match pickup_tried(old(ecs)@) {
            Ok(m) => r is Ok && final(ecs)@ == m,
            Err(f) => r == Err::<(), Fault>(f) && *final(ecs) == *old(ecs),
        },
        final(ecs).wf(),
{
    let n = ecs.entities.len();
    let mut target_item: Option<Entity> = None;
    let mut i: usize = 0;
    while i < n
        invariant
            i <= n,
            n == ecs@.entities.len(),
            target_item == item_underfoot(ecs@, i as int),
        decreases n - i,
    {
        let e = &ecs.entities[i];
        match e.position {
            Some(p) => {
                if e.item.is_some() && p.x == ecs.player_position.x && p.y
                    == ecs.player_position.y {
                    target_item = Some(Entity { id: i });
                }
            },
            None => {},
        }
        i += 1;
    }
    match target_item {
        None => {
            ecs.log(nothing_to_pick_up_line());
            Ok(())
        },
        Some(item) => {
            if !ecs.is_alive(ecs.player) {
                return Err(Fault::NoSuchEntity);
            }
            let player = ecs.player;
            ecs.entities[player.id].wants_to_pickup_item = Some(
                WantsToPickupItem { collected_by: player, item },
            );
            proof {
                let m = pickup_tried(old(ecs)@).unwrap();
                assert(ecs@.entities =~= m.entities);
                assert forall|j: int| 0 <= j < ecs@.entities.len() implies #[trigger] ecs@.slot_wf(
                    j,
                ) by {
                    assert(old(ecs)@.slot_wf(j));
                }
            }
            Ok(())
        },
    }
}

/// Carries out one command from the keyboard and says which phase of the
/// turn cycle comes next.
pub fn player_input(game_state: &mut State, command: Option<Command>) -> (r: Result<
    RunState,
    Fault,
>)
    requires
        old(game_state).ecs.wf(),
    ensures
        match input_handled(old(game_state).ecs@, command) {
            Ok((m, next)) => r == Ok::<RunState, Fault>(next) && final(game_state).ecs@ == m,
            Err(f) => r == Err::<RunState, Fault>(f),
        },
        final(game_state).ecs.wf(),
{
    let c = match command {
        None => {
            return Ok(RunState::AwaitingInput);
        },
        Some(c) => c,
    };
    match c.delta() {
        Some((dx, dy)) => {
            try_move_player(dx, dy, &mut game_state.ecs);
            return Ok(RunState::PlayerTurn);
        },
        None => {},
    }
    match c {
        Command::PickUp => match try_pickup_item(&mut game_state.ecs) {
            Ok(()) => Ok(RunState::PlayerTurn),
            Err(f) => Err(f),
        },
        Command::Inventory => Ok(RunState::ShowInventory),
        Command::DropItem => Ok(RunState::ShowDropItem),
        Command::SaveAndExit => Ok(RunState::SaveGame),
        Command::Descend => {
            let p = game_state.ecs.player_position;
            let index = game_state.ecs.map.xy_idx(p.x, p.y);
            if game_state.ecs.map.tiles[index] == TileType::DownStairs {
                Ok(RunState::NextLevel)
            } else {
                game_state.ecs.log(no_way_down_line());
                Ok(RunState::PlayerTurn)
            }
        },
        _ => Ok(RunState::PlayerTurn),
    }
}

} // verus!
