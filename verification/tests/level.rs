use roguelike::components::{CombatStats, Ranged, Renderer};
use roguelike::geometry::{within_melee_range, within_range, Coord, Rect};
use roguelike::map::{GameMap, TileType};
use roguelike::map_indexing_system::MapIndexingSystem;
use roguelike::random_table::{RandomTable, SpawnKind};
use roguelike::spawner::{fill_room, populate, room_table, spawn, spawn_player, SpawnPoint};
use roguelike::state::RunState;
use roguelike::world::World;

fn floor_at(map: &GameMap, x: i32, y: i32) -> bool {
    map.tiles[map.xy_idx(x, y)] != TileType::Wall
}

#[test]
fn a_new_level_is_solid_and_unseen() {
    let map = GameMap::new(7, 3, 2);
    assert_eq!(map.tiles, vec![TileType::Wall; 21]);
    assert_eq!(map.revealed_tiles, vec![false; 21]);
    assert_eq!(map.visible_tiles, vec![false; 21]);
    assert_eq!(map.blocked_tiles, vec![false; 21]);
    assert_eq!(map.tile_contents.len(), 21);
    assert!(map.rooms.is_empty());
    assert_eq!(map.depth, 2);
    assert_eq!(map.dimensions(), Coord { x: 7, y: 3 });
}

#[test]
fn tiles_are_stored_row_by_row() {
    let map = GameMap::new(80, 50, 1);
    assert_eq!(map.xy_idx(0, 0), 0);
    assert_eq!(map.xy_idx(79, 0), 79);
    assert_eq!(map.xy_idx(0, 1), 80);
    assert_eq!(map.xy_idx(13, 7), 573);
    assert_eq!(map.xy_idx(79, 49), 3999);
    assert_eq!(map.idx_xy(573), Coord { x: 13, y: 7 });
    assert_eq!(map.idx_xy(3999), Coord { x: 79, y: 49 });
    assert!(map.in_bounds(0, 0));
    assert!(map.in_bounds(79, 49));
    assert!(!map.in_bounds(80, 0));
    assert!(!map.in_bounds(0, 50));
    assert!(!map.in_bounds(-1, 0));
}

#[test]
fn walls_are_opaque_and_so_is_everything_off_the_level() {
    let mut map = GameMap::new(5, 5, 1);
    let idx = map.xy_idx(2, 2);
    map.tiles[idx] = TileType::Floor;
    let stairs = map.xy_idx(3, 2);
    map.tiles[stairs] = TileType::DownStairs;
    assert!(!map.is_opaque(idx));
    assert!(!map.is_opaque(stairs));
    assert!(map.is_opaque(0));
    assert!(map.is_opaque(25));
    assert!(map.is_opaque(usize::MAX));
}

#[test]
fn exits_lead_to_open_neighbours_west_east_north_south() {
    let mut map = GameMap::new(5, 5, 1);
    for (x, y) in [(2, 2), (1, 2), (3, 2), (2, 1), (2, 3), (0, 3), (1, 3)] {
        let idx = map.xy_idx(x, y);
        map.tiles[idx] = TileType::Floor;
    }
    assert_eq!(map.get_available_exits(12), vec![11, 13, 7, 17]);
    assert_eq!(map.get_available_exits(17), vec![16, 12]);
    assert_eq!(map.get_available_exits(16), vec![17, 11]);
    assert_eq!(map.get_available_exits(0), Vec::<usize>::new());
    assert!(map.is_exit_valid(1, 3));
    assert!(!map.is_exit_valid(0, 3));
    assert!(!map.is_exit_valid(2, 0));
    assert!(!map.is_exit_valid(4, 4));
    assert!(!map.is_exit_valid(5, 2));
    assert!(!map.is_exit_valid(-3, 2));
}

#[test]
fn a_room_is_dug_without_its_left_column_and_top_row() {
    let mut map = GameMap::new(10, 8, 1);
    map.apply_room_to_map(&Rect::new(2, 1, 4, 3));
    for y in 0..8 {
        for x in 0..10 {
            let inside = x > 2 && x <= 6 && y > 1 && y <= 4;
            assert_eq!(floor_at(&map, x, y), inside);
        }
    }
}

#[test]
fn corridors_are_dug_between_their_ends_in_either_order() {
    let mut map = GameMap::new(10, 8, 1);
    map.apply_horizontal_corridor(7, 3, 2);
    map.apply_vertical_corridor(6, 4, 1);
    for y in 0..8 {
        for x in 0..10 {
            let dug = (y == 2 && x >= 3 && x <= 7) || (x == 1 && y >= 4 && y <= 6);
            assert_eq!(floor_at(&map, x, y), dug);
        }
    }
}

#[test]
fn corridors_never_touch_the_first_tile_or_leave_the_level() {
    let mut map = GameMap::new(10, 8, 1);
    map.apply_horizontal_corridor(0, 2, 0);
    assert!(!floor_at(&map, 0, 0));
    assert!(floor_at(&map, 1, 0));
    assert!(floor_at(&map, 2, 0));
    map.apply_vertical_corridor(0, 20, 0);
    assert!(!floor_at(&map, 0, 0));
    assert!(floor_at(&map, 0, 1));
    assert!(floor_at(&map, 0, 7));
    map.apply_horizontal_corridor(8, 11, 7);
    assert!(floor_at(&map, 9, 7));
    assert_eq!(map.tiles.len(), 80);
}

#[test]
fn rooms_are_joined_to_the_one_before_and_overlaps_are_refused() {
    let mut map = GameMap::new(30, 20, 1);
    assert!(map.add_room(Rect::new(1, 1, 4, 4), true));
    assert!(!map.add_room(Rect::new(5, 5, 3, 3), true));
    assert!(!map.add_room(Rect::new(3, 3, 6, 6), false));
    assert_eq!(map.rooms.len(), 1);
    assert!(map.add_room(Rect::new(20, 10, 6, 6), true));
    assert_eq!(map.rooms, vec![Rect::new(1, 1, 4, 4), Rect::new(20, 10, 6, 6)]);
    for x in 3..=23 {
        assert!(floor_at(&map, x, 3));
    }
    for y in 3..=13 {
        assert!(floor_at(&map, 23, y));
    }
    assert!(!floor_at(&map, 3, 10));
    let mut other = GameMap::new(30, 20, 1);
    other.add_room(Rect::new(1, 1, 4, 4), false);
    other.add_room(Rect::new(20, 10, 6, 6), false);
    for y in 3..=13 {
        assert!(floor_at(&other, 3, y));
    }
    for x in 3..=23 {
        assert!(floor_at(&other, x, 13));
    }
    assert!(!floor_at(&other, 23, 5));
}

#[test]
fn rectangles_meet_when_they_touch() {
    let a = Rect::new(0, 0, 4, 4);
    assert_eq!(a, Rect { x1: 0, x2: 4, y1: 0, y2: 4 });
    assert!(a.intersects(&Rect::new(4, 4, 2, 2)));
    assert!(a.intersects(&Rect::new(1, 1, 1, 1)));
    assert!(!a.intersects(&Rect::new(5, 0, 2, 2)));
    assert!(!a.intersects(&Rect::new(0, 5, 2, 2)));
    assert_eq!(a.center(), (2, 2));
    assert_eq!(Rect::new(1, 2, 4, 5).center(), (3, 4));
    assert_eq!(Rect::new(-5, -8, 2, 1).center(), (-4, -7));
}

#[test]
fn reach_is_the_eight_neighbours_and_range_is_a_circle() {
    let p = Coord::new(5, 5);
    assert!(within_melee_range(p, p));
    assert!(within_melee_range(p, Coord::new(6, 6)));
    assert!(within_melee_range(p, Coord::new(4, 5)));
    assert!(!within_melee_range(p, Coord::new(7, 5)));
    assert!(!within_melee_range(p, Coord::new(6, 7)));
    assert!(!within_melee_range(Coord::new(i32::MIN, 0), Coord::new(i32::MAX, 0)));
    assert!(within_range(p, Coord::new(8, 9), 5));
    assert!(!within_range(p, Coord::new(8, 9), 4));
    assert!(within_range(p, p, 0));
    assert!(!within_range(p, p, -1));
    assert!(!within_range(Coord::new(i32::MIN, i32::MIN), Coord::new(i32::MAX, i32::MAX), i32::MAX));
}

#[test]
fn a_generated_level_has_disjoint_open_rooms_and_stairs() {
    let map = GameMap::new_map_rooms_and_corridors();
    assert_eq!((map.width, map.height, map.depth), (80, 50, 1));
    assert_eq!(map.tiles.len(), 4000);
    assert!(!map.rooms.is_empty());
    assert!(map.rooms.len() <= 30);
    for (i, room) in map.rooms.iter().enumerate() {
        assert!(room.x1 >= 0 && room.x2 <= 78 && room.y1 >= 0 && room.y2 <= 48);
        assert!(room.x2 - room.x1 >= 6 && room.x2 - room.x1 <= 9);
        assert!(room.y2 - room.y1 >= 6 && room.y2 - room.y1 <= 9);
        for other in map.rooms.iter().skip(i + 1) {
            assert!(!room.intersects(other));
        }
        for y in room.y1 + 1..=room.y2 {
            for x in room.x1 + 1..=room.x2 {
                assert!(floor_at(&map, x, y));
            }
        }
    }
    let (cx, cy) = map.rooms[map.rooms.len() - 1].center();
    assert_eq!(map.tiles[map.xy_idx(cx, cy)], TileType::DownStairs);
    assert_eq!(map.tiles.iter().filter(|t| **t == TileType::DownStairs).count(), 1);
    assert_eq!(map.tiles[0], TileType::Wall);
    assert!(map.revealed_tiles.iter().all(|r| !*r));
}

#[test]
fn the_table_picks_by_weight() {
    let table = RandomTable::new()
        .add(SpawnKind::Goblin, 3)
        .add(SpawnKind::Orc, 0)
        .add(SpawnKind::HealthPotion, 2)
        .add(SpawnKind::FireballScroll, -4);
    assert_eq!(table.total_weight, 5);
    assert_eq!(table.entries.len(), 2);
    assert_eq!(table.pick(0), Some(SpawnKind::Goblin));
    assert_eq!(table.pick(2), Some(SpawnKind::Goblin));
    assert_eq!(table.pick(3), Some(SpawnKind::HealthPotion));
    assert_eq!(table.pick(4), Some(SpawnKind::HealthPotion));
    assert_eq!(table.pick(5), None);
    assert_eq!(RandomTable::new().pick(0), None);
    let mut rng = rltk::RandomNumberGenerator::seeded(7);
    assert_eq!(RandomTable::new().roll(&mut rng), None);
    let mut goblins = 0;
    for _ in 0..200 {
        match table.roll(&mut rng) {
            Some(SpawnKind::Goblin) => goblins += 1,
            Some(SpawnKind::HealthPotion) => {}
            other => panic!("not in the table: {:?}", other),
        }
    }
    assert!(goblins > 60 && goblins < 180);
}

#[test]
fn the_room_table_grows_with_depth() {
    assert_eq!(room_table(0).total_weight, 26);
    assert_eq!(room_table(3).total_weight, 35);
    assert_eq!(room_table(-5).total_weight, 21);
    assert_eq!(room_table(-5).entries.len(), 3);
    assert_eq!(room_table(1).entries[1].weight, 2);
}

#[test]
fn a_filled_room_holds_up_to_four_things_on_distinct_floor_tiles() {
    for seed in 0..40 {
        let mut map = GameMap::new(80, 50, 1);
        let room = Rect::new(10, 10, 6, 5);
        map.apply_room_to_map(&room);
        let mut world = World::new(map, RunState::PreRun);
        let mut rng = rltk::RandomNumberGenerator::seeded(seed);
        fill_room(&mut world, &mut rng, &room, 1);
        assert!(world.entities.len() <= 4);
        assert!(world.check());
        let mut places = Vec::new();
        for e in world.entities.iter() {
            let p = e.position.unwrap();
            assert!(p.x > room.x1 && p.x <= room.x2 && p.y > room.y1 && p.y <= room.y2);
            assert!(!places.contains(&(p.x, p.y)));
            places.push((p.x, p.y));
            assert!(e.alive && e.name.is_some() && e.renderer.is_some());
            assert!(e.monster.is_some() != e.item.is_some());
        }
    }
}

#[test]
fn rooms_are_filled_differently_from_seed_to_seed() {
    let mut counts = Vec::new();
    for seed in 0..40 {
        let mut map = GameMap::new(80, 50, 1);
        let room = Rect::new(10, 10, 6, 5);
        map.apply_room_to_map(&room);
        let mut world = World::new(map, RunState::PreRun);
        let mut rng = rltk::RandomNumberGenerator::seeded(seed);
        fill_room(&mut world, &mut rng, &room, 1);
        counts.push(world.entities.len());
    }
    assert!(counts.iter().any(|c| *c == 0));
    assert!(counts.iter().any(|c| *c > 1));
}

#[test]
fn populate_puts_each_kind_where_it_is_told() {
    let mut map = GameMap::new(20, 20, 1);
    map.apply_room_to_map(&Rect::new(1, 1, 10, 10));
    let mut world = World::new(map, RunState::PreRun);
    let points = vec![
        SpawnPoint { x: 2, y: 2, kind: Some(SpawnKind::Orc) },
        SpawnPoint { x: 3, y: 2, kind: None },
        SpawnPoint { x: 4, y: 2, kind: Some(SpawnKind::ConfusionScroll) },
    ];
    populate(&mut world, &points);
    assert_eq!(world.entities.len(), 2);
    assert_eq!(world.entities[0].name.as_ref().unwrap().name, "Orc");
    assert_eq!(world.entities[1].name.as_ref().unwrap().name, "Confusion Scroll");
    assert_eq!(world.entities[1].position.unwrap().x, 4);
}

#[test]
fn templates_are_as_the_game_has_them() {
    let mut world = World::new(GameMap::new(20, 20, 1), RunState::PreRun);
    let player = spawn_player(&mut world, 4, 6);
    let goblin = spawn(&mut world, SpawnKind::Goblin, 1, 1);
    let orc = spawn(&mut world, SpawnKind::Orc, 1, 2);
    let missile = spawn(&mut world, SpawnKind::MagicMissileScroll, 1, 3);
    let confusion = spawn(&mut world, SpawnKind::ConfusionScroll, 1, 4);
    let potion = spawn(&mut world, SpawnKind::HealthPotion, 1, 5);
    assert_eq!(world.player, player);
    assert_eq!(world.player_position, Coord { x: 4, y: 6 });
    let p = &world.entities[player.id];
    assert_eq!(p.combat_stats, Some(CombatStats { max_hp: 30, hp: 30, defense: 2, power: 5 }));
    assert_eq!(p.name.as_ref().unwrap().name, "Player");
    assert_eq!(p.renderer.unwrap().glyph, 64);
    assert_eq!(p.renderer.unwrap().render_order, 0);
    assert_eq!(p.viewshed.as_ref().unwrap().range, 8);
    assert!(p.viewshed.as_ref().unwrap().dirty);
    assert!(p.player.is_some() && p.monster.is_none() && p.blocks_tile.is_none());
    let g = &world.entities[goblin.id];
    assert_eq!(g.combat_stats, Some(CombatStats { max_hp: 16, hp: 16, defense: 1, power: 4 }));
    assert_eq!(g.renderer.unwrap().glyph, 103);
    assert_eq!(g.renderer.unwrap().render_order, 1);
    assert!(g.monster.is_some() && g.blocks_tile.is_some());
    assert_eq!(world.entities[orc.id].renderer.unwrap().glyph, 111);
    assert_eq!(world.entities[orc.id].name.as_ref().unwrap().name, "Orc");
    let m = &world.entities[missile.id];
    assert_eq!(m.inflicts_damage.unwrap().damage, 8);
    assert_eq!(m.ranged, Some(Ranged { range: 6 }));
    assert!(m.area_of_effect.is_none() && m.consumable.is_some() && m.item.is_some());
    assert_eq!(m.renderer.unwrap().glyph, 41);
    assert_eq!(world.entities[confusion.id].confusion.unwrap().turns, 4);
    let h = &world.entities[potion.id];
    assert_eq!(h.renderer.unwrap().glyph, 173);
    assert_eq!(h.renderer.unwrap().render_order, 2);
    let Renderer { fg, bg, .. } = h.renderer.unwrap();
    assert_eq!((fg.r, fg.g, fg.b), (0, 255, 0));
    assert_eq!((bg.r, bg.g, bg.b), (0, 0, 0));
}

#[test]
fn indexing_rebuilds_blocking_and_occupancy_from_nothing() {
    let mut map = GameMap::new(10, 10, 1);
    map.apply_room_to_map(&Rect::new(0, 0, 8, 8));
    let mut world = World::new(map, RunState::PreRun);
    let goblin = spawn(&mut world, SpawnKind::Goblin, 3, 3);
    let potion = spawn(&mut world, SpawnKind::HealthPotion, 3, 3);
    let other = spawn(&mut world, SpawnKind::HealthPotion, 4, 4);
    let stale = world.map.xy_idx(5, 5);
    world.map.blocked_tiles[stale] = true;
    world.map.tile_contents[stale].push(goblin);
    MapIndexingSystem {}.run(&mut world);
    let at = world.map.xy_idx(3, 3);
    assert_eq!(world.map.tile_contents[at], vec![goblin, potion]);
    assert!(world.map.blocked_tiles[at]);
    let free = world.map.xy_idx(4, 4);
    assert_eq!(world.map.tile_contents[free], vec![other]);
    assert!(!world.map.blocked_tiles[free]);
    assert!(world.map.tile_contents[stale].is_empty());
    assert!(!world.map.blocked_tiles[stale]);
    assert!(world.map.blocked_tiles[0]);
    MapIndexingSystem {}.run(&mut world);
    assert_eq!(world.map.tile_contents[at], vec![goblin, potion]);
}

#[test]
fn generated_rooms_vary_in_size_and_place() {
    let mut sizes = Vec::new();
    let mut corners = Vec::new();
    for _ in 0..4 {
        let map = GameMap::new_map_rooms_and_corridors();
        for room in map.rooms.iter() {
            sizes.push((room.x2 - room.x1, room.y2 - room.y1));
            corners.push((room.x1, room.y1));
        }
    }
    assert!(sizes.iter().any(|s| s.0 != sizes[0].0));
    assert!(sizes.iter().any(|s| s.1 != sizes[0].1));
    assert!(corners.iter().any(|c| c.0 != corners[0].0));
    assert!(corners.iter().any(|c| c.1 != corners[0].1));
}
