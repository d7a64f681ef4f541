use roguelike::components::{
    Components, Entity, InBackpack, Name, Position, WantsToDropItem, WantsToUseItem,
};
use roguelike::geometry::{Coord, Rect};
use roguelike::gui::{
    drop_item_menu, main_menu, player_inventory, ranged_target, show_inventory, targetable_cells,
    ItemMenuResult, MainMenuResult, MainMenuSelection, MenuKey,
};
use roguelike::map::{GameMap, TileType};
use roguelike::player::Command;
use roguelike::random_table::SpawnKind;
use roguelike::save_load_system::load_game;
use roguelike::spawner::{spawn, spawn_player};
use roguelike::state::{RunState, State, TickAction, TickInput};
use roguelike::world::{Fault, World};

fn open_world(width: i32, height: i32, phase: RunState) -> World {
    let mut map = GameMap::new(width, height, 1);
    for tile in map.tiles.iter_mut() {
        *tile = TileType::Floor;
    }
    World::new(map, phase)
}

fn quiet() -> TickInput {
    TickInput { command: None, key: None, mouse: Coord { x: 0, y: 0 }, left_click: false, paths: vec![] }
}

fn with_key(key: MenuKey) -> TickInput {
    TickInput { key: Some(key), ..quiet() }
}

fn with_command(command: Command) -> TickInput {
    TickInput { command: Some(command), ..quiet() }
}

fn stow(world: &mut World, item: Entity, owner: Entity) {
    world.entities[item.id].position = None;
    world.entities[item.id].in_backpack = Some(InBackpack { owner });
}

#[test]
fn the_turn_cycle_goes_round() {
    let mut world = open_world(20, 20, RunState::PreRun);
    let player = spawn_player(&mut world, 5, 5);
    let mut state = State::new(world);
    assert_eq!(state.tick(&quiet()), Ok(TickAction::Continue));
    assert_eq!(state.ecs.run_state, RunState::AwaitingInput);
    assert!(!state.ecs.entities[player.id].viewshed.as_ref().unwrap().dirty);
    assert_eq!(state.tick(&quiet()), Ok(TickAction::Continue));
    assert_eq!(state.ecs.run_state, RunState::AwaitingInput);
    assert_eq!(state.tick(&with_command(Command::Right)), Ok(TickAction::Continue));
    assert_eq!(state.ecs.run_state, RunState::PlayerTurn);
    assert_eq!(state.ecs.entities[player.id].position, Some(Position { x: 6, y: 5 }));
    assert_eq!(state.tick(&quiet()), Ok(TickAction::Continue));
    assert_eq!(state.ecs.run_state, RunState::MonsterTurn);
    assert!(state.path_requests().is_empty());
    assert_eq!(state.tick(&quiet()), Ok(TickAction::Continue));
    assert_eq!(state.ecs.run_state, RunState::AwaitingInput);
}

#[test]
fn a_fight_through_whole_ticks() {
    let mut world = open_world(20, 20, RunState::PreRun);
    let player = spawn_player(&mut world, 5, 5);
    let goblin = spawn(&mut world, SpawnKind::Goblin, 6, 5);
    let mut state = State::new(world);
    state.tick(&quiet()).unwrap();
    state.tick(&with_command(Command::Right)).unwrap();
    assert_eq!(state.ecs.run_state, RunState::PlayerTurn);
    assert!(state.ecs.entities[player.id].wants_to_melee.is_some());
    state.tick(&quiet()).unwrap();
    assert_eq!(state.ecs.run_state, RunState::MonsterTurn);
    assert_eq!(state.ecs.entities[goblin.id].combat_stats.unwrap().hp, 12);
    assert_eq!(state.ecs.entities[player.id].combat_stats.unwrap().hp, 30);
    assert_eq!(state.ecs.log.entries, vec!["Player hits Goblin for 4 damage!".to_string()]);
    let requests = state.path_requests();
    assert!(requests.is_empty());
    state.tick(&quiet()).unwrap();
    assert_eq!(state.ecs.run_state, RunState::AwaitingInput);
    assert_eq!(state.ecs.entities[player.id].combat_stats.unwrap().hp, 28);
    assert_eq!(state.ecs.log.entries[1], "Goblin hits Player for 2 damage!");
    assert!(state.ecs.entities[goblin.id].wants_to_melee.is_none());
}

#[test]
fn whoever_dies_in_a_tick_is_gone_at_its_end() {
    let mut world = open_world(20, 20, RunState::PreRun);
    let _player = spawn_player(&mut world, 5, 5);
    let goblin = spawn(&mut world, SpawnKind::Goblin, 6, 5);
    world.entities[goblin.id].combat_stats.as_mut().unwrap().hp = 3;
    let mut state = State::new(world);
    state.tick(&quiet()).unwrap();
    state.tick(&with_command(Command::Right)).unwrap();
    state.tick(&quiet()).unwrap();
    assert!(!state.ecs.is_alive(goblin));
    assert_eq!(
        state.ecs.log.entries,
        vec!["Player hits Goblin for 4 damage!".to_string(), "Goblin has died!".to_string()]
    );
}

#[test]
fn a_pass_with_nothing_to_do_changes_only_views() {
    let mut world = open_world(20, 20, RunState::PlayerTurn);
    let player = spawn_player(&mut world, 5, 5);
    let goblin = spawn(&mut world, SpawnKind::Goblin, 9, 9);
    let potion = spawn(&mut world, SpawnKind::HealthPotion, 3, 3);
    let mut state = State::new(world);
    state.run_systems(&vec![]).unwrap();
    let after_first: Vec<String> = state.ecs.entities.iter().map(|e| format!("{:?}", e)).collect();
    let map_first = format!("{:?}", state.ecs.map);
    state.run_systems(&vec![]).unwrap();
    let after_second: Vec<String> = state.ecs.entities.iter().map(|e| format!("{:?}", e)).collect();
    assert_eq!(after_first, after_second);
    assert_eq!(map_first, format!("{:?}", state.ecs.map));
    assert!(state.ecs.log.entries.is_empty());
    assert_eq!(state.ecs.entities[player.id].position, Some(Position { x: 5, y: 5 }));
    assert_eq!(state.ecs.entities[goblin.id].combat_stats.unwrap().hp, 16);
    assert_eq!(state.ecs.entities[potion.id].position, Some(Position { x: 3, y: 3 }));
    let at_goblin = state.ecs.map.xy_idx(9, 9);
    assert!(state.ecs.map.blocked_tiles[at_goblin]);
    assert_eq!(state.ecs.map.tile_contents[at_goblin], vec![goblin]);
}

#[test]
fn items_stay_in_one_place_through_pickup_and_drop() {
    let mut world = open_world(20, 20, RunState::PreRun);
    let player = spawn_player(&mut world, 5, 5);
    let potion = spawn(&mut world, SpawnKind::HealthPotion, 5, 5);
    let mut state = State::new(world);
    let placed = |state: &State| {
        state.ecs.entities.iter().all(|e| {
            e.item.is_none() || (e.position.is_some() != e.in_backpack.is_some())
        })
    };
    state.tick(&quiet()).unwrap();
    assert!(placed(&state));
    state.tick(&with_command(Command::PickUp)).unwrap();
    assert!(placed(&state));
    state.tick(&quiet()).unwrap();
    assert!(placed(&state));
    assert_eq!(state.ecs.entities[potion.id].in_backpack, Some(InBackpack { owner: player }));
    state.tick(&quiet()).unwrap();
    state.tick(&with_command(Command::DropItem)).unwrap();
    assert_eq!(state.ecs.run_state, RunState::ShowDropItem);
    state.tick(&with_key(MenuKey::Letter(0))).unwrap();
    assert_eq!(state.ecs.run_state, RunState::PlayerTurn);
    assert_eq!(state.ecs.entities[player.id].wants_to_drop_item, Some(WantsToDropItem { item: potion }));
    assert!(placed(&state));
    state.tick(&quiet()).unwrap();
    assert!(placed(&state));
    assert_eq!(state.ecs.entities[potion.id].position, Some(Position { x: 5, y: 5 }));
    assert!(state.ecs.entities[potion.id].in_backpack.is_none());
}

#[test]
fn the_inventory_menu_uses_or_aims() {
    let mut world = open_world(20, 20, RunState::ShowInventory);
    let player = spawn_player(&mut world, 5, 5);
    let potion = spawn(&mut world, SpawnKind::HealthPotion, 5, 5);
    let scroll = spawn(&mut world, SpawnKind::FireballScroll, 5, 5);
    let loose = spawn(&mut world, SpawnKind::HealthPotion, 7, 7);
    stow(&mut world, potion, player);
    stow(&mut world, scroll, player);
    assert_eq!(player_inventory(&world), vec![potion, scroll]);
    let mut state = State::new(world);
    assert_eq!(show_inventory(&state, None), (ItemMenuResult::NoResponse, None));
    assert_eq!(show_inventory(&state, Some(MenuKey::Escape)), (ItemMenuResult::Cancel, None));
    assert_eq!(show_inventory(&state, Some(MenuKey::Letter(0))), (ItemMenuResult::Selected, Some(potion)));
    assert_eq!(show_inventory(&state, Some(MenuKey::Letter(1))), (ItemMenuResult::Selected, Some(scroll)));
    assert_eq!(show_inventory(&state, Some(MenuKey::Letter(2))), (ItemMenuResult::NoResponse, None));
    assert_eq!(show_inventory(&state, Some(MenuKey::Letter(-1))), (ItemMenuResult::NoResponse, None));
    assert_eq!(show_inventory(&state, Some(MenuKey::Return)), (ItemMenuResult::NoResponse, None));
    assert_eq!(drop_item_menu(&state, Some(MenuKey::Letter(1))), (ItemMenuResult::Selected, Some(scroll)));
    assert_ne!(show_inventory(&state, Some(MenuKey::Letter(0))).1, Some(loose));

    state.tick(&with_key(MenuKey::Other)).unwrap();
    assert_eq!(state.ecs.run_state, RunState::ShowInventory);
    state.tick(&with_key(MenuKey::Letter(1))).unwrap();
    assert_eq!(state.ecs.run_state, RunState::ShowTargeting { range: 6, item: scroll });
    assert!(state.ecs.entities[player.id].wants_to_use_item.is_none());

    state.ecs.run_state = RunState::ShowInventory;
    state.tick(&with_key(MenuKey::Letter(0))).unwrap();
    assert_eq!(state.ecs.run_state, RunState::PlayerTurn);
    assert_eq!(
        state.ecs.entities[player.id].wants_to_use_item,
        Some(WantsToUseItem { item: potion, target: None })
    );

    state.ecs.run_state = RunState::ShowInventory;
    state.tick(&with_key(MenuKey::Escape)).unwrap();
    assert_eq!(state.ecs.run_state, RunState::AwaitingInput);
}

#[test]
fn targeting_selects_a_tile_in_view_and_range() {
    let mut world = open_world(30, 30, RunState::PreRun);
    let player = spawn_player(&mut world, 5, 5);
    let scroll = spawn(&mut world, SpawnKind::MagicMissileScroll, 5, 5);
    stow(&mut world, scroll, player);
    let mut state = State::new(world);
    state.tick(&quiet()).unwrap();
    state.ecs.run_state = RunState::ShowTargeting { range: 6, item: scroll };
    let cells = targetable_cells(&state.ecs, 6);
    assert!(cells.contains(&Coord { x: 11, y: 5 }));
    assert!(cells.contains(&Coord { x: 5, y: 5 }));
    assert!(!cells.contains(&Coord { x: 12, y: 5 }));
    assert!(!cells.contains(&Coord { x: 10, y: 9 }));
    assert!(cells.contains(&Coord { x: 9, y: 9 }));
    assert!(targetable_cells(&state.ecs, -1).is_empty());
    assert_eq!(
        ranged_target(&state, 6, Coord { x: 11, y: 5 }, false),
        (ItemMenuResult::NoResponse, None)
    );
    assert_eq!(
        ranged_target(&state, 6, Coord { x: 11, y: 5 }, true),
        (ItemMenuResult::Selected, Some(Coord { x: 11, y: 5 }))
    );
    assert_eq!(ranged_target(&state, 6, Coord { x: 12, y: 5 }, true), (ItemMenuResult::Cancel, None));
    assert_eq!(ranged_target(&state, 6, Coord { x: -1, y: 5 }, true), (ItemMenuResult::Cancel, None));

    let click = TickInput { mouse: Coord { x: 8, y: 5 }, left_click: true, ..quiet() };
    state.tick(&click).unwrap();
    assert_eq!(state.ecs.run_state, RunState::PlayerTurn);
    assert_eq!(
        state.ecs.entities[player.id].wants_to_use_item,
        Some(WantsToUseItem { item: scroll, target: Some(Coord { x: 8, y: 5 }) })
    );

    state.ecs.run_state = RunState::ShowTargeting { range: 6, item: scroll };
    let miss = TickInput { mouse: Coord { x: 25, y: 25 }, left_click: true, ..quiet() };
    state.tick(&miss).unwrap();
    assert_eq!(state.ecs.run_state, RunState::AwaitingInput);
}

#[test]
fn targeting_without_a_view_cancels() {
    let mut world = open_world(20, 20, RunState::AwaitingInput);
    let mut c = Components::blank(true);
    c.name = Some(Name { name: "Blind".to_string() });
    let e = world.spawn(c);
    world.player = e;
    let state = State::new(world);
    assert_eq!(ranged_target(&state, 6, Coord { x: 1, y: 1 }, false), (ItemMenuResult::Cancel, None));
    assert!(targetable_cells(&state.ecs, 6).is_empty());
}

#[test]
fn the_main_menu_moves_selects_and_quits() {
    let start = RunState::MainMenu { menu_selection: MainMenuSelection::NewGame };
    let mut state = State::new(open_world(20, 20, start));
    assert_eq!(
        main_menu(&state, None),
        MainMenuResult::NoSelection { selected: MainMenuSelection::NewGame }
    );
    assert_eq!(
        main_menu(&state, Some(MenuKey::Up)),
        MainMenuResult::NoSelection { selected: MainMenuSelection::Quit }
    );
    assert_eq!(
        main_menu(&state, Some(MenuKey::Down)),
        MainMenuResult::NoSelection { selected: MainMenuSelection::LoadGame }
    );
    assert_eq!(
        main_menu(&state, Some(MenuKey::Escape)),
        MainMenuResult::NoSelection { selected: MainMenuSelection::Quit }
    );
    assert_eq!(
        main_menu(&state, Some(MenuKey::Return)),
        MainMenuResult::Selected { selected: MainMenuSelection::NewGame }
    );
    assert_eq!(state.tick(&with_key(MenuKey::Down)), Ok(TickAction::Continue));
    assert_eq!(state.ecs.run_state, RunState::MainMenu { menu_selection: MainMenuSelection::LoadGame });
    assert_eq!(state.tick(&with_key(MenuKey::Return)), Ok(TickAction::LoadGame));
    assert_eq!(state.tick(&with_key(MenuKey::Down)), Ok(TickAction::Continue));
    assert_eq!(state.ecs.run_state, RunState::MainMenu { menu_selection: MainMenuSelection::Quit });
    assert_eq!(state.tick(&with_key(MenuKey::Return)), Ok(TickAction::Quit));
    assert_eq!(state.tick(&with_key(MenuKey::Down)), Ok(TickAction::Continue));
    assert_eq!(state.tick(&with_key(MenuKey::Letter(3))), Ok(TickAction::Continue));
    assert_eq!(state.ecs.run_state, RunState::MainMenu { menu_selection: MainMenuSelection::NewGame });
    assert_eq!(state.tick(&with_key(MenuKey::Return)), Ok(TickAction::Continue));
    assert_eq!(state.ecs.run_state, RunState::PreRun);
    assert_eq!(
        main_menu(&state, Some(MenuKey::Return)),
        MainMenuResult::NoSelection { selected: MainMenuSelection::NewGame }
    );
}

#[test]
fn saving_leads_back_to_the_menu() {
    let mut state = State::new(open_world(20, 20, RunState::AwaitingInput));
    spawn_player(&mut state.ecs, 5, 5);
    assert_eq!(state.tick(&with_command(Command::SaveAndExit)), Ok(TickAction::Continue));
    assert_eq!(state.ecs.run_state, RunState::SaveGame);
    assert_eq!(state.tick(&quiet()), Ok(TickAction::SaveGame));
    assert_eq!(state.ecs.run_state, RunState::MainMenu { menu_selection: MainMenuSelection::Quit });
}

#[test]
fn an_intent_without_a_player_is_a_fault() {
    let mut world = open_world(20, 20, RunState::ShowDropItem);
    let player = spawn_player(&mut world, 5, 5);
    let potion = spawn(&mut world, SpawnKind::HealthPotion, 5, 5);
    stow(&mut world, potion, player);
    world.delete_entity(player).unwrap();
    assert!(world.check());
    let mut state = State::new(world);
    assert_eq!(state.tick(&with_key(MenuKey::Letter(0))), Err(Fault::NoSuchEntity));
}

#[test]
fn descending_keeps_the_player_and_the_backpack() {
    let mut world = open_world(20, 20, RunState::NextLevel);
    let player = spawn_player(&mut world, 5, 5);
    world.entities[player.id].combat_stats.as_mut().unwrap().hp = 4;
    world.entities[player.id].viewshed.as_mut().unwrap().dirty = false;
    let carried = spawn(&mut world, SpawnKind::HealthPotion, 5, 5);
    stow(&mut world, carried, player);
    let left = spawn(&mut world, SpawnKind::HealthPotion, 8, 8);
    let goblin = spawn(&mut world, SpawnKind::Goblin, 9, 9);
    let mut state = State::new(world);
    assert_eq!(state.tick(&quiet()), Ok(TickAction::NextLevel));
    assert_eq!(state.ecs.run_state, RunState::NextLevel);
    let mut next = GameMap::new(20, 20, 2);
    next.rooms.push(Rect::new(10, 10, 6, 4));
    state.goto_next_level(next);
    assert_eq!(state.ecs.run_state, RunState::PreRun);
    assert_eq!(state.ecs.map.depth, 2);
    assert!(state.ecs.is_alive(player));
    assert!(state.ecs.is_alive(carried));
    assert!(!state.ecs.is_alive(left));
    assert!(!state.ecs.is_alive(goblin));
    assert_eq!(state.ecs.entities[player.id].position, Some(Position { x: 13, y: 12 }));
    assert_eq!(state.ecs.player_position, Coord { x: 13, y: 12 });
    assert!(state.ecs.entities[player.id].viewshed.as_ref().unwrap().dirty);
    assert_eq!(state.ecs.entities[player.id].combat_stats.unwrap().hp, 15);
    assert_eq!(
        state.ecs.log.entries,
        vec!["You descend to the next level, and take a moment to heal.".to_string()]
    );
}

#[test]
fn the_rest_between_levels_never_lowers_hit_points() {
    let mut world = open_world(20, 20, RunState::NextLevel);
    let player = spawn_player(&mut world, 5, 5);
    world.entities[player.id].combat_stats.as_mut().unwrap().hp = 22;
    let mut state = State::new(world);
    let mut next = GameMap::new(20, 20, 2);
    next.rooms.push(Rect::new(1, 1, 4, 4));
    state.goto_next_level(next);
    assert_eq!(state.ecs.entities[player.id].combat_stats.unwrap().hp, 22);
}

#[test]
fn loading_takes_the_stored_world_and_finds_its_player() {
    let mut current = open_world(20, 20, RunState::MainMenu { menu_selection: MainMenuSelection::LoadGame });
    current.log("kept".to_string());
    let mut saved = open_world(30, 10, RunState::SaveGame);
    let goblin = spawn(&mut saved, SpawnKind::Goblin, 3, 3);
    let player = spawn_player(&mut saved, 7, 2);
    saved.player = Entity { id: 0 };
    saved.player_position = Coord { x: 0, y: 0 };
    saved.log("lost".to_string());
    let at = saved.map.xy_idx(3, 3);
    saved.map.tile_contents[at].push(goblin);
    saved.pending_deletions.push(goblin);
    assert!(saved.check());
    load_game(&mut current, saved);
    assert_eq!(current.run_state, RunState::AwaitingInput);
    assert_eq!(current.player, player);
    assert_eq!(current.player_position, Coord { x: 7, y: 2 });
    assert_eq!(current.map.width, 30);
    assert_eq!(current.entities.len(), 2);
    assert!(current.map.tile_contents.iter().all(|t| t.is_empty()));
    assert!(current.pending_deletions.is_empty());
    assert_eq!(current.log.entries, vec!["kept".to_string()]);
    assert!(current.check());
}

#[test]
fn the_check_rejects_worlds_that_are_out_of_shape() {
    let mut world = open_world(20, 20, RunState::PreRun);
    let player = spawn_player(&mut world, 5, 5);
    assert!(world.check());
    world.entities[player.id].position = Some(Position { x: 20, y: 5 });
    assert!(!world.check());
    world.entities[player.id].position = Some(Position { x: 19, y: 5 });
    assert!(world.check());
    world.entities[player.id].viewshed.as_mut().unwrap().range = 30000;
    assert!(!world.check());
    world.entities[player.id].viewshed.as_mut().unwrap().range = 8;
    world.entities[player.id].wants_to_use_item =
        Some(WantsToUseItem { item: player, target: Some(Coord { x: 0, y: -1 }) });
    assert!(!world.check());
    world.entities[player.id].wants_to_use_item = None;
    world.entities[player.id].alive = false;
    assert!(!world.check());
    world.entities[player.id].alive = true;
    world.player_position = Coord { x: 20, y: 20 };
    assert!(!world.check());
    world.player_position = Coord { x: 5, y: 5 };
    world.map.blocked_tiles.pop();
    assert!(!world.check());
}

#[test]
fn deletions_put_off_happen_when_the_world_is_maintained() {
    let mut world = open_world(20, 20, RunState::PreRun);
    let a = spawn(&mut world, SpawnKind::HealthPotion, 1, 1);
    let b = spawn(&mut world, SpawnKind::HealthPotion, 2, 1);
    world.pending_deletions.push(a);
    world.pending_deletions.push(Entity { id: 77 });
    world.pending_deletions.push(a);
    world.maintain();
    assert!(!world.is_alive(a));
    assert!(world.is_alive(b));
    assert!(world.pending_deletions.is_empty());
}

#[test]
fn a_monster_in_view_closes_in_tick_by_tick() {
    let mut world = open_world(20, 20, RunState::PreRun);
    let player = spawn_player(&mut world, 5, 5);
    let goblin = spawn(&mut world, SpawnKind::Goblin, 8, 5);
    let mut state = State::new(world);
    state.tick(&quiet()).unwrap();
    state.tick(&with_command(Command::Skip)).unwrap();
    state.tick(&quiet()).unwrap();
    assert_eq!(state.ecs.run_state, RunState::MonsterTurn);
    let requests = state.path_requests();
    assert_eq!(requests.len(), 1);
    assert_eq!(requests[0].monster, goblin);
    assert_eq!(requests[0].start, 5 * 20 + 8);
    assert_eq!(requests[0].end, 5 * 20 + 5);
    let route = roguelike::monster_ai_system::PathAnswer {
        monster: goblin,
        success: true,
        steps: vec![108, 107, 106, 105],
    };
    let input = TickInput { paths: vec![route], ..quiet() };
    state.tick(&input).unwrap();
    assert_eq!(state.ecs.run_state, RunState::AwaitingInput);
    assert_eq!(state.ecs.entities[goblin.id].position, Some(Position { x: 7, y: 5 }));
    let at = state.ecs.map.xy_idx(7, 5);
    assert_eq!(state.ecs.map.tile_contents[at], vec![goblin]);
    assert!(state.ecs.map.blocked_tiles[at]);
    assert_eq!(state.ecs.entities[player.id].combat_stats.unwrap().hp, 30);
}

#[test]
fn asking_for_routes_outside_the_monsters_turn_changes_nothing() {
    let mut world = open_world(20, 20, RunState::AwaitingInput);
    let player = spawn_player(&mut world, 5, 5);
    let _goblin = spawn(&mut world, SpawnKind::Goblin, 8, 5);
    let mut state = State::new(world);
    assert!(state.path_requests().is_empty());
    assert!(state.ecs.entities[player.id].viewshed.as_ref().unwrap().dirty);
    assert!(state.ecs.map.visible_tiles.iter().all(|v| !*v));
}
