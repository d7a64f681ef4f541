use roguelike::components::{Color, Components, Name, Position, Renderer};
use roguelike::game_log::GameLog;
use roguelike::map::{GameMap, TileType};
use roguelike::random_table::SpawnKind;
use roguelike::render::{player_health, recent_log, renderables, tooltips, Drawable};
use roguelike::spawner::{spawn, spawn_player};
use roguelike::state::RunState;
use roguelike::visibility_system::VisibilitySystem;
use roguelike::world::World;

fn open_world(width: i32, height: i32) -> World {
    let mut map = GameMap::new(width, height, 1);
    for tile in map.tiles.iter_mut() {
        *tile = TileType::Floor;
    }
    World::new(map, RunState::PreRun)
}

#[test]
fn things_are_drawn_from_the_highest_order_down_and_only_in_view() {
    let mut world = open_world(40, 20);
    let _player = spawn_player(&mut world, 5, 5);
    let _goblin = spawn(&mut world, SpawnKind::Goblin, 6, 5);
    let _potion = spawn(&mut world, SpawnKind::HealthPotion, 6, 5);
    let _orc = spawn(&mut world, SpawnKind::Orc, 7, 7);
    let _scroll = spawn(&mut world, SpawnKind::FireballScroll, 4, 4);
    let _hidden = spawn(&mut world, SpawnKind::Goblin, 30, 5);
    assert!(renderables(&world).is_empty());
    VisibilitySystem {}.run(&mut world);
    let list = renderables(&world);
    let orders: Vec<i32> = list.iter().map(|d| d.renderer.render_order).collect();
    assert_eq!(orders, vec![2, 2, 1, 1, 0]);
    let places: Vec<(i32, i32)> = list.iter().map(|d| (d.position.x, d.position.y)).collect();
    assert_eq!(places, vec![(6, 5), (4, 4), (6, 5), (7, 7), (5, 5)]);
}

#[test]
fn what_has_no_look_or_no_place_is_not_drawn() {
    let mut world = open_world(20, 20);
    let _player = spawn_player(&mut world, 5, 5);
    let mut c = Components::blank(true);
    c.position = Some(Position { x: 5, y: 6 });
    world.spawn(c);
    let mut c = Components::blank(true);
    c.renderer = Some(Renderer {
        glyph: 1,
        fg: Color { r: 1, g: 2, b: 3 },
        bg: Color { r: 0, g: 0, b: 0 },
        render_order: 9,
    });
    world.spawn(c);
    VisibilitySystem {}.run(&mut world);
    let list = renderables(&world);
    assert_eq!(list.len(), 1);
    assert_eq!(list[0].position, Position { x: 5, y: 5 });
    let _ = Drawable { position: list[0].position, renderer: list[0].renderer };
}

#[test]
fn the_log_is_shown_latest_first() {
    let mut log = GameLog::new();
    assert!(recent_log(&log, 5).is_empty());
    for line in ["one", "two", "three"] {
        log.push(line.to_string());
    }
    assert_eq!(recent_log(&log, 2), vec!["three".to_string(), "two".to_string()]);
    assert_eq!(
        recent_log(&log, 5),
        vec!["three".to_string(), "two".to_string(), "one".to_string()]
    );
    assert!(recent_log(&log, 0).is_empty());
    assert_eq!(log.entries.len(), 3);
}

#[test]
fn health_is_reported_for_the_player_only() {
    let mut world = open_world(20, 20);
    assert!(player_health(&world).is_empty());
    let player = spawn_player(&mut world, 5, 5);
    let _goblin = spawn(&mut world, SpawnKind::Goblin, 6, 5);
    world.entities[player.id].combat_stats.as_mut().unwrap().hp = 12;
    assert_eq!(player_health(&world), vec![(12, 30)]);
}

#[test]
fn tooltips_name_what_stands_on_a_tile_in_view() {
    let mut world = open_world(40, 20);
    let _player = spawn_player(&mut world, 5, 5);
    let _goblin = spawn(&mut world, SpawnKind::Goblin, 6, 5);
    let _potion = spawn(&mut world, SpawnKind::HealthPotion, 6, 5);
    let _hidden = spawn(&mut world, SpawnKind::Orc, 30, 5);
    let mut c = Components::blank(true);
    c.position = Some(Position { x: 6, y: 5 });
    world.spawn(c);
    assert!(tooltips(&world, 6, 5).is_empty());
    VisibilitySystem {}.run(&mut world);
    assert_eq!(tooltips(&world, 6, 5), vec!["Goblin".to_string(), "Health Potion".to_string()]);
    assert_eq!(tooltips(&world, 5, 5), vec!["Player".to_string()]);
    assert!(tooltips(&world, 30, 5).is_empty());
    assert!(tooltips(&world, 7, 5).is_empty());
    assert!(tooltips(&world, -1, 500).is_empty());
    let _ = Name { name: String::new() };
}
