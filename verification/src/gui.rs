//! What the menus and the targeting cursor make of a key or a click.
//! Drawing them is left to the caller.

use vstd::prelude::*;
use crate::components::{Entity, EntityModel};
use crate::geometry::{spec_within_range, within_range, Coord};
use crate::state::{RunState, State};
use crate::world::{World, WorldModel};

verus! {

/// What a menu made of the latest input.
#[derive(Clone, Copy, Debug, PartialEq, Eq, Structural)]
pub enum ItemMenuResult {
    Cancel,
    NoResponse,
    Selected,
}

#[derive(Clone, Copy, Debug, PartialEq, Eq, Structural)]
pub enum MainMenuSelection {
    NewGame,
    LoadGame,
    Quit,
}

#[derive(Clone, Copy, Debug, PartialEq, Eq, Structural)]
pub enum MainMenuResult {
    NoSelection { selected: MainMenuSelection },
    Selected { selected: MainMenuSelection },
}

/// A key press as the menus read it. `Letter` carries the position of the
/// letter in the alphabet, counted from zero.
#[derive(Clone, Copy, Debug, PartialEq, Eq, Structural)]
pub enum MenuKey {
    Escape,
    Up,
    Down,
    Return,
    Letter(i32),
    Other,
}

/// Whether the entity is an entry of `owner`'s inventory: something with a
/// name that lies in that backpack.
pub open spec fn carried_by(e: EntityModel, owner: Entity) -> bool {
    e.name is Some && e.in_backpack == Some(crate::components::InBackpack { owner })
}

/// The inventory of `owner` among slots `0 .. n`, in slot order.
pub open spec fn inventory_upto(w: WorldModel, owner: Entity, n: int) -> Seq<Entity>
    decreases n,
{
    if n <= 0 {
        Seq::empty()
    } else if carried_by(w.entities[n - 1], owner) {
        inventory_upto(w, owner, n - 1).push(Entity { id: (n - 1) as usize })
    } else {
        inventory_upto(w, owner, n - 1)
    }
}

/// What the player carries, in the order in which the menus list it.
pub open spec fn inventory(w: WorldModel) -> Seq<Entity> {
    inventory_upto(w, w.player, w.entities.len() as int)
}

/// The answer of an item menu to a key: Escape cancels, the letter of a
/// listed item selects it, and anything else is no answer.
pub open spec fn item_menu_choice(w: WorldModel, key: Option<MenuKey>) -> (
    ItemMenuResult,
    Option<Entity>,
) {
    match key {
        None => (ItemMenuResult::NoResponse, None),
        Some(MenuKey::Escape) => (ItemMenuResult::Cancel, None),
        Some(MenuKey::Letter(k)) => if 0 <= k < inventory(w).len() {
            (ItemMenuResult::Selected, Some(inventory(w)[k as int]))
        } else {
            (ItemMenuResult::NoResponse, None)
        },
        Some(_) => (ItemMenuResult::NoResponse, None),
    }
}

/// Whether tile `p` can be aimed at from where the player stands: it is
/// on the level, within `range`, and `tiles` lists it as seen.
pub open spec fn targetable(w: WorldModel, tiles: Seq<Coord>, range: i32, p: Coord) -> bool {
    &&& w.map.in_bounds(p.x as int, p.y as int)
    &&& spec_within_range(w.player_position, p, range as int)
    &&& tiles.contains(p)
}

/// The answer of the targeting cursor. Without a field of view there is
/// nothing to aim with, which cancels. A click on a tile that can be aimed
/// at selects it, a click elsewhere cancels, and no click is no answer.
pub open spec fn target_choice(w: WorldModel, range: i32, mouse: Coord, left_click: bool) -> (
    ItemMenuResult,
    Option<Coord>,
) {
    if !(w.player.id < w.entities.len()) || w.entities[w.player.id as int].viewshed is None {
        (ItemMenuResult::Cancel, None)
    } else if !left_click {
        (ItemMenuResult::NoResponse, None)
    } else if targetable(
        w,
        w.entities[w.player.id as int].viewshed.unwrap().visible_tiles,
        range,
        mouse,
    ) {
        (ItemMenuResult::Selected, Some(mouse))
    } else {
        (ItemMenuResult::Cancel, None)
    }
}

pub open spec fn selection_above(s: MainMenuSelection) -> MainMenuSelection {
    match s {
        MainMenuSelection::NewGame => MainMenuSelection::Quit,
        MainMenuSelection::LoadGame => MainMenuSelection::NewGame,
        MainMenuSelection::Quit => MainMenuSelection::LoadGame,
    }
}

pub open spec fn selection_below(s: MainMenuSelection) -> MainMenuSelection {
    match s {
        MainMenuSelection::NewGame => MainMenuSelection::LoadGame,
        MainMenuSelection::LoadGame => MainMenuSelection::Quit,
        MainMenuSelection::Quit => MainMenuSelection::NewGame,
    }
}

/// The answer of the main menu to a key, when the game shows it: the arrow
/// keys move the highlight round the three entries, Escape moves it to
/// Quit, Return selects the highlighted entry.
pub open spec fn main_menu_choice(run_state: RunState, key: Option<MenuKey>) -> MainMenuResult {
    match run_state {
        RunState::MainMenu { menu_selection } => match key {
            None => MainMenuResult::NoSelection { selected: menu_selection },
            Some(MenuKey::Escape) => MainMenuResult::NoSelection {
                selected: MainMenuSelection::Quit,
            },
            Some(MenuKey::Up) => MainMenuResult::NoSelection {
                selected: selection_above(menu_selection),
            },
            Some(MenuKey::Down) => MainMenuResult::NoSelection {
                selected: selection_below(menu_selection),
            },
            Some(MenuKey::Return) => MainMenuResult::Selected { selected: menu_selection },
            Some(_) => MainMenuResult::NoSelection { selected: menu_selection },
        },
        _ => MainMenuResult::NoSelection { selected: MainMenuSelection::NewGame },
    }
}

/// Lists what the player carries, in slot order.
pub fn player_inventory(world: &World) -> (items: Vec<Entity>)
    ensures
        items@ == inventory(world@),
{
    let mut items: Vec<Entity> = Vec::new();
    let n = world.entities.len();
    let mut i: usize = 0;
    while i < n
        invariant
            i <= n,
            n == world@.entities.len(),
            items@ == inventory_upto(world@, world.player, i as int),
        decreases n - i,
    {
        let e = &world.entities[i];
        match e.in_backpack {
            Some(b) => {
                if e.name.is_some() && b.owner == world.player {
                    items.push(Entity { id: i });
                }
            },
            None => {},
        }
        i += 1;
    }
    items
}

fn choose_item(world: &World, key: Option<MenuKey>) -> (r: (ItemMenuResult, Option<Entity>))
    ensures
        r == item_menu_choice(world@, key),
{
    match key {
        None => (ItemMenuResult::NoResponse, None),
        Some(MenuKey::Escape) => (ItemMenuResult::Cancel, None),
        Some(MenuKey::Letter(k)) => {
            let items = player_inventory(world);
            if k >= 0 && (k as usize) < items.len() {
                (ItemMenuResult::Selected, Some(items[k as usize]))
            } else {
                (ItemMenuResult::NoResponse, None)
            }
        },
        Some(_) => (ItemMenuResult::NoResponse, None),
    }
}

/// Reads a key as an answer to the inventory menu.
pub fn show_inventory(game_state: &State, key: Option<MenuKey>) -> (r: (
    ItemMenuResult,
    Option<Entity>,
))
    ensures
        r == item_menu_choice(game_state.ecs@, key),
{
    choose_item(&game_state.ecs, key)
}

/// Reads a key as an answer to the menu of things to drop.
pub fn drop_item_menu(gs: &State, key: Option<MenuKey>) -> (r: (ItemMenuResult, Option<Entity>))
    ensures
        r == item_menu_choice(gs.ecs@, key),
{
    choose_item(&gs.ecs, key)
}

/// Lists the tiles that the player can aim at with the given range, in the
/// order in which the player's field of view holds them.
pub fn targetable_cells(world: &World, range: i32) -> (cells: Vec<Coord>)
    ensures
        forall|p: Coord|
            cells@.contains(p) <==> (world@.player.id < world@.entities.len()
                && world@.entities[world@.player.id as int].viewshed is Some && targetable(
                world@,
                world@.entities[world@.player.id as int].viewshed.unwrap().visible_tiles,
                range,
                p,
            )),
{
    let mut cells: Vec<Coord> = Vec::new();
    if world.player.id >= world.entities.len() {
        return cells;
    }
    match &world.entities[world.player.id].viewshed {
        None => cells,
        Some(v) => {
            let tiles = &v.visible_tiles;
            let mut i: usize = 0;
            while i < tiles.len()
                invariant
                    i <= tiles@.len(),
                    forall|p: Coord|
                        cells@.contains(p) <==> targetable(world@, tiles@.take(i as int), range, p),
                decreases tiles@.len() - i,
            {
                let t = tiles[i];
                let ghost before = cells@;
                let ghost prefix = tiles@.take(i as int);
                let ghost longer = tiles@.take(i + 1);
                let add = world.map.in_bounds(t.x, t.y) && within_range(
                    world.player_position,
                    t,
                    range,
                );
                if add {
                    cells.push(t);
                }
                proof {
                    assert(longer =~= prefix.push(t));
                    assert forall|p: Coord| cells@.contains(p) <==> targetable(
                        world@,
                        longer,
                        range,
                        p,
                    ) by {
                        if longer.contains(p) {
                            let j = choose|j: int| 0 <= j < longer.len() && longer[j] == p;
                            if j < i {
                                assert(prefix[j] == p);
                            }
                        }
                        if prefix.contains(p) {
                            let j = choose|j: int| 0 <= j < prefix.len() && prefix[j] == p;
                            assert(longer[j] == p);
                        }
                        assert(longer[i as int] == t);
                        if add {
                            assert(cells@ =~= before.push(t));
                            assert(cells@[before.len() as int] == t);
                            if before.contains(p) {
                                let j = choose|j: int| 0 <= j < before.len() && before[j] == p;
                                assert(cells@[j] == p);
                            }
                            if cells@.contains(p) {
                                let j = choose|j: int| 0 <= j < cells@.len() && cells@[j] == p;
                                if j < before.len() {
                                    assert(before[j] == p);
                                }
                            }
                        }
                    }
                }
                i += 1;
            }
            proof {
                assert(tiles@.take(i as int) =~= tiles@);
            }
            cells
        },
    }
}

fn lists(tiles: &Vec<Coord>, p: Coord) -> (r: bool)
    ensures
        r == tiles@.contains(p),
{
    let mut i: usize = 0;
    while i < tiles.len()
        invariant
            i <= tiles@.len(),
            forall|j: int| 0 <= j < i ==> tiles@[j] != p,
        decreases tiles@.len() - i,
    {
        if tiles[i].x == p.x && tiles[i].y == p.y {
            return true;
        }
        i += 1;
    }
    false
}

/// Reads the mouse as an answer to the targeting cursor.
pub fn ranged_target(game_state: &State, range: i32, mouse: Coord, left_click: bool) -> (r: (
    ItemMenuResult,
    Option<Coord>,
))
    ensures
        r == target_choice(game_state.ecs@, range, mouse, left_click),
{
    let world = &game_state.ecs;
    if world.player.id >= world.entities.len() {
        return (ItemMenuResult::Cancel, None);
    }
    match &world.entities[world.player.id].viewshed {
        None => (ItemMenuResult::Cancel, None),
        Some(v) => {
            if !left_click {
                (ItemMenuResult::NoResponse, None)
            } else if world.map.in_bounds(mouse.x, mouse.y) && within_range(
                world.player_position,
                mouse,
                range,
            ) && lists(&v.visible_tiles, mouse) {
                (ItemMenuResult::Selected, Some(mouse))
            } else {
                (ItemMenuResult::Cancel, None)
            }
        },
    }
}

/// Reads a key as an answer to the main menu.
pub fn main_menu(game_state: &State, key: Option<MenuKey>) -> (r: MainMenuResult)
    ensures
        r == main_menu_choice(game_state.ecs.run_state, key),
{
    match game_state.ecs.run_state {
        RunState::MainMenu { menu_selection } => match key {
            None => MainMenuResult::NoSelection { selected: menu_selection },
            Some(MenuKey::Escape) => MainMenuResult::NoSelection {
                selected: MainMenuSelection::Quit,
            },
            Some(MenuKey::Up) => MainMenuResult::NoSelection {
                selected: match menu_selection {
                    MainMenuSelection::NewGame => MainMenuSelection::Quit,
                    MainMenuSelection::LoadGame => MainMenuSelection::NewGame,
                    MainMenuSelection::Quit => MainMenuSelection::LoadGame,
                },
            },
            Some(MenuKey::Down) => MainMenuResult::NoSelection {
                selected: match menu_selection {
                    MainMenuSelection::NewGame => MainMenuSelection::LoadGame,
                    MainMenuSelection::LoadGame => MainMenuSelection::Quit,
                    MainMenuSelection::Quit => MainMenuSelection::NewGame,
                },
            },
            Some(MenuKey::Return) => MainMenuResult::Selected { selected: menu_selection },
            Some(_) => MainMenuResult::NoSelection { selected: menu_selection },
        },
        _ => MainMenuResult::NoSelection { selected: MainMenuSelection::NewGame },
    }
}

} // verus!
