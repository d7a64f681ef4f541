use roguelike::components::{Entity, Position, WantsToMelee, WantsToPickupItem};
use roguelike::geometry::Coord;
use roguelike::map::{GameMap, TileType};
use roguelike::map_indexing_system::MapIndexingSystem;
use roguelike::player::{player_input, try_move_player, try_pickup_item, Command};
use roguelike::random_table::SpawnKind;
use roguelike::spawner::{spawn, spawn_player};
use roguelike::state::{RunState, State};
use roguelike::world::{Fault, World};

fn open_world(width: i32, height: i32) -> World {
    let mut map = GameMap::new(width, height, 1);
    for tile in map.tiles.iter_mut() {
        *tile = TileType::Floor;
    }
    World::new(map, RunState::AwaitingInput)
}

#[test]
fn moving_onto_a_fighter_attacks_instead() {
    let mut world = open_world(20, 20);
    let player = spawn_player(&mut world, 5, 5);
    let goblin = spawn(&mut world, SpawnKind::Goblin, 6, 5);
    MapIndexingSystem {}.run(&mut world);
    world.entities[player.id].viewshed.as_mut().unwrap().dirty = false;
    try_move_player(1, 0, &mut world);
    assert_eq!(world.entities[player.id].wants_to_melee, Some(WantsToMelee { target: goblin }));
    assert_eq!(world.entities[player.id].position, Some(Position { x: 5, y: 5 }));
    assert_eq!(world.player_position, Coord { x: 5, y: 5 });
    assert!(!world.entities[player.id].viewshed.as_ref().unwrap().dirty);
}

#[test]
fn a_free_tile_is_stepped_onto() {
    let mut world = open_world(20, 20);
    let player = spawn_player(&mut world, 5, 5);
    MapIndexingSystem {}.run(&mut world);
    world.entities[player.id].viewshed.as_mut().unwrap().dirty = false;
    try_move_player(-1, 1, &mut world);
    assert_eq!(world.entities[player.id].position, Some(Position { x: 4, y: 6 }));
    assert_eq!(world.player_position, Coord { x: 4, y: 6 });
    assert!(world.entities[player.id].viewshed.as_ref().unwrap().dirty);
    assert!(world.entities[player.id].wants_to_melee.is_none());
}

#[test]
fn a_wall_is_not_stepped_onto() {
    let mut world = open_world(20, 20);
    let idx = world.map.xy_idx(5, 4);
    world.map.tiles[idx] = TileType::Wall;
    let player = spawn_player(&mut world, 5, 5);
    MapIndexingSystem {}.run(&mut world);
    try_move_player(0, -1, &mut world);
    assert_eq!(world.entities[player.id].position, Some(Position { x: 5, y: 5 }));
    assert_eq!(world.player_position, Coord { x: 5, y: 5 });
}

#[test]
fn the_edge_of_the_level_is_not_crossed() {
    let mut world = open_world(20, 20);
    let player = spawn_player(&mut world, 0, 19);
    MapIndexingSystem {}.run(&mut world);
    try_move_player(-1, 0, &mut world);
    assert_eq!(world.entities[player.id].position, Some(Position { x: 0, y: 19 }));
    try_move_player(0, 1, &mut world);
    assert_eq!(world.entities[player.id].position, Some(Position { x: 0, y: 19 }));
    try_move_player(i32::MAX, i32::MIN, &mut world);
    assert_eq!(world.entities[player.id].position, Some(Position { x: 0, y: 19 }));
}

#[test]
fn an_item_on_the_tile_does_not_stop_the_step() {
    let mut world = open_world(20, 20);
    let player = spawn_player(&mut world, 5, 5);
    let _potion = spawn(&mut world, SpawnKind::HealthPotion, 6, 5);
    MapIndexingSystem {}.run(&mut world);
    try_move_player(1, 0, &mut world);
    assert_eq!(world.entities[player.id].position, Some(Position { x: 6, y: 5 }));
    assert!(world.entities[player.id].wants_to_melee.is_none());
}

#[test]
fn pickup_takes_the_item_underfoot() {
    let mut world = open_world(20, 20);
    let player = spawn_player(&mut world, 5, 5);
    let _elsewhere = spawn(&mut world, SpawnKind::HealthPotion, 6, 5);
    let here = spawn(&mut world, SpawnKind::MagicMissileScroll, 5, 5);
    assert_eq!(try_pickup_item(&mut world), Ok(()));
    assert_eq!(
        world.entities[player.id].wants_to_pickup_item,
        Some(WantsToPickupItem { collected_by: player, item: here })
    );
    assert!(world.log.entries.is_empty());
}

#[test]
fn pickup_of_several_items_takes_the_one_created_last() {
    let mut world = open_world(20, 20);
    let player = spawn_player(&mut world, 5, 5);
    let _first = spawn(&mut world, SpawnKind::HealthPotion, 5, 5);
    let second = spawn(&mut world, SpawnKind::MagicMissileScroll, 5, 5);
    try_pickup_item(&mut world).unwrap();
    assert_eq!(world.entities[player.id].wants_to_pickup_item.unwrap().item, second);
}

#[test]
fn pickup_with_nothing_there_says_so() {
    let mut world = open_world(20, 20);
    let player = spawn_player(&mut world, 5, 5);
    let _monster = spawn(&mut world, SpawnKind::Goblin, 5, 5);
    assert_eq!(try_pickup_item(&mut world), Ok(()));
    assert!(world.entities[player.id].wants_to_pickup_item.is_none());
    assert_eq!(world.log.entries, vec!["There is nothing to pick up.".to_string()]);
}

#[test]
fn pickup_without_a_player_is_a_fault() {
    let mut world = open_world(20, 20);
    let _potion = spawn(&mut world, SpawnKind::HealthPotion, 0, 0);
    world.player = Entity { id: 12 };
    assert_eq!(try_pickup_item(&mut world), Err(Fault::NoSuchEntity));
}

#[test]
fn commands_lead_to_their_phases() {
    let mut world = open_world(20, 20);
    let player = spawn_player(&mut world, 5, 5);
    MapIndexingSystem {}.run(&mut world);
    let mut state = State::new(world);
    assert_eq!(player_input(&mut state, None), Ok(RunState::AwaitingInput));
    assert_eq!(player_input(&mut state, Some(Command::Inventory)), Ok(RunState::ShowInventory));
    assert_eq!(player_input(&mut state, Some(Command::DropItem)), Ok(RunState::ShowDropItem));
    assert_eq!(player_input(&mut state, Some(Command::SaveAndExit)), Ok(RunState::SaveGame));
    assert_eq!(player_input(&mut state, Some(Command::Skip)), Ok(RunState::PlayerTurn));
    assert_eq!(state.ecs.entities[player.id].position, Some(Position { x: 5, y: 5 }));
    assert!(state.ecs.log.entries.is_empty());
    assert_eq!(player_input(&mut state, Some(Command::PickUp)), Ok(RunState::PlayerTurn));
    assert_eq!(state.ecs.log.entries.len(), 1);
}

#[test]
fn each_direction_moves_by_its_step() {
    let steps = [
        (Command::Left, 4, 5),
        (Command::Right, 6, 5),
        (Command::Up, 5, 4),
        (Command::Down, 5, 6),
        (Command::UpRight, 6, 4),
        (Command::UpLeft, 4, 4),
        (Command::DownRight, 6, 6),
        (Command::DownLeft, 4, 6),
    ];
    for (command, x, y) in steps {
        let mut world = open_world(20, 20);
        let player = spawn_player(&mut world, 5, 5);
        MapIndexingSystem {}.run(&mut world);
        let mut state = State::new(world);
        assert_eq!(player_input(&mut state, Some(command)), Ok(RunState::PlayerTurn));
        assert_eq!(state.ecs.entities[player.id].position, Some(Position { x, y }));
    }
    assert_eq!(Command::PickUp.delta(), None);
    assert_eq!(Command::UpLeft.delta(), Some((-1, -1)));
}

#[test]
fn stairs_lead_down_and_their_absence_costs_a_turn() {
    let mut world = open_world(20, 20);
    let _player = spawn_player(&mut world, 5, 5);
    let mut state = State::new(world);
    assert_eq!(player_input(&mut state, Some(Command::Descend)), Ok(RunState::PlayerTurn));
    assert_eq!(state.ecs.log.entries, vec!["There is no way down from here.".to_string()]);
    let idx = state.ecs.map.xy_idx(5, 5);
    state.ecs.map.tiles[idx] = TileType::DownStairs;
    assert_eq!(player_input(&mut state, Some(Command::Descend)), Ok(RunState::NextLevel));
    assert_eq!(state.ecs.log.entries.len(), 1);
}
