use roguelike::components::{
    AreaOfEffect, CombatStats, Components, Confusion, Consumable, Entity, InBackpack,
    InflictsDamage, Item, Name, Player, Position, ProvidesHealing, Ranged, WantsToDropItem,
    WantsToPickupItem, WantsToUseItem,
};
use roguelike::geometry::Coord;
use roguelike::inventory_system::{ItemCollectionSystem, ItemDropSystem};
use roguelike::item_use_system::ItemUseSystem;
use roguelike::map::{GameMap, TileType};
use roguelike::map_indexing_system::MapIndexingSystem;
use roguelike::random_table::SpawnKind;
use roguelike::spawner::{spawn, spawn_player};
use roguelike::state::RunState;
use roguelike::world::{Fault, World};

fn open_world(width: i32, height: i32) -> World {
    let mut map = GameMap::new(width, height, 1);
    for tile in map.tiles.iter_mut() {
        *tile = TileType::Floor;
    }
    World::new(map, RunState::PreRun)
}

fn stow(world: &mut World, item: Entity, owner: Entity) {
    world.entities[item.id].position = None;
    world.entities[item.id].in_backpack = Some(InBackpack { owner });
}

fn hp_of(world: &World, e: Entity) -> i32 {
    world.entities[e.id].combat_stats.unwrap().hp
}

#[test]
fn a_healing_potion_heals_and_is_used_up() {
    let mut world = open_world(20, 20);
    let player = spawn_player(&mut world, 5, 5);
    world.entities[player.id].combat_stats.as_mut().unwrap().hp = 10;
    let potion = spawn(&mut world, SpawnKind::HealthPotion, 5, 5);
    stow(&mut world, potion, player);
    world.entities[player.id].wants_to_use_item = Some(WantsToUseItem { item: potion, target: None });
    ItemUseSystem {}.run(&mut world).unwrap();
    assert_eq!(hp_of(&world, player), 18);
    assert_eq!(world.entities[player.id].combat_stats.unwrap().max_hp, 30);
    assert_eq!(world.pending_deletions, vec![potion]);
    assert!(world.entities[player.id].wants_to_use_item.is_none());
    assert_eq!(world.log.entries, vec!["You drink the Health Potion, healing 8 hp.".to_string()]);
    world.maintain();
    assert!(!world.is_alive(potion));
    assert!(world.entities[potion.id].in_backpack.is_none());
    assert!(world.pending_deletions.is_empty());
}

#[test]
fn healing_stops_at_the_maximum() {
    let mut world = open_world(20, 20);
    let player = spawn_player(&mut world, 5, 5);
    world.entities[player.id].combat_stats.as_mut().unwrap().hp = 27;
    let potion = spawn(&mut world, SpawnKind::HealthPotion, 5, 5);
    stow(&mut world, potion, player);
    world.entities[player.id].wants_to_use_item = Some(WantsToUseItem { item: potion, target: None });
    ItemUseSystem {}.run(&mut world).unwrap();
    assert_eq!(hp_of(&world, player), 30);
}

#[test]
fn healing_item_without_anyone_to_heal_is_kept() {
    let mut world = open_world(20, 20);
    let mut c = Components::blank(true);
    c.name = Some(Name { name: "Statue".to_string() });
    c.position = Some(Position { x: 3, y: 3 });
    let user = world.spawn(c);
    let potion = spawn(&mut world, SpawnKind::HealthPotion, 5, 5);
    stow(&mut world, potion, user);
    world.entities[user.id].wants_to_use_item = Some(WantsToUseItem { item: potion, target: None });
    ItemUseSystem {}.run(&mut world).unwrap();
    assert!(world.pending_deletions.is_empty());
    assert!(world.entities[user.id].wants_to_use_item.is_none());
    assert!(world.log.entries.is_empty());
}

#[test]
fn someone_else_drinks_without_a_word_in_the_log() {
    let mut world = open_world(20, 20);
    let _player = spawn_player(&mut world, 5, 5);
    let goblin = spawn(&mut world, SpawnKind::Goblin, 7, 7);
    world.entities[goblin.id].combat_stats.as_mut().unwrap().hp = 2;
    let potion = spawn(&mut world, SpawnKind::HealthPotion, 5, 5);
    stow(&mut world, potion, goblin);
    world.entities[goblin.id].wants_to_use_item = Some(WantsToUseItem { item: potion, target: None });
    ItemUseSystem {}.run(&mut world).unwrap();
    assert_eq!(hp_of(&world, goblin), 10);
    assert!(world.log.entries.is_empty());
    assert_eq!(world.pending_deletions, vec![potion]);
}

#[test]
fn a_pickup_moves_the_item_into_the_backpack() {
    let mut world = open_world(20, 20);
    let player = spawn_player(&mut world, 5, 5);
    let potion = spawn(&mut world, SpawnKind::HealthPotion, 5, 5);
    world.entities[player.id].wants_to_pickup_item =
        Some(WantsToPickupItem { collected_by: player, item: potion });
    ItemCollectionSystem {}.run(&mut world).unwrap();
    assert!(world.entities[potion.id].position.is_none());
    assert_eq!(world.entities[potion.id].in_backpack, Some(InBackpack { owner: player }));
    assert_eq!(world.log.entries, vec!["You pick up the Health Potion".to_string()]);
    assert!(world.entities[player.id].wants_to_pickup_item.is_none());
}

#[test]
fn pickup_by_someone_else_is_not_logged() {
    let mut world = open_world(20, 20);
    let _player = spawn_player(&mut world, 5, 5);
    let goblin = spawn(&mut world, SpawnKind::Goblin, 7, 7);
    let potion = spawn(&mut world, SpawnKind::HealthPotion, 7, 7);
    world.entities[goblin.id].wants_to_pickup_item =
        Some(WantsToPickupItem { collected_by: goblin, item: potion });
    ItemCollectionSystem {}.run(&mut world).unwrap();
    assert_eq!(world.entities[potion.id].in_backpack, Some(InBackpack { owner: goblin }));
    assert!(world.log.entries.is_empty());
}

#[test]
fn pickup_of_a_deleted_item_is_a_fault() {
    let mut world = open_world(20, 20);
    let player = spawn_player(&mut world, 5, 5);
    let potion = spawn(&mut world, SpawnKind::HealthPotion, 5, 5);
    world.delete_entity(potion).unwrap();
    world.entities[player.id].wants_to_pickup_item =
        Some(WantsToPickupItem { collected_by: player, item: potion });
    assert_eq!(ItemCollectionSystem {}.run(&mut world), Err(Fault::NoSuchEntity));
}

#[test]
fn pickup_of_a_nameless_item_by_the_player_is_a_fault() {
    let mut world = open_world(20, 20);
    let player = spawn_player(&mut world, 5, 5);
    let mut c = Components::blank(true);
    c.item = Some(Item {});
    c.position = Some(Position { x: 5, y: 5 });
    let thing = world.spawn(c);
    world.entities[player.id].wants_to_pickup_item =
        Some(WantsToPickupItem { collected_by: player, item: thing });
    assert_eq!(ItemCollectionSystem {}.run(&mut world), Err(Fault::MissingName));
}

#[test]
fn drop_puts_the_item_where_the_dropper_stands() {
    let mut world = open_world(20, 20);
    let player = spawn_player(&mut world, 6, 9);
    let scroll = spawn(&mut world, SpawnKind::MagicMissileScroll, 1, 1);
    stow(&mut world, scroll, player);
    world.entities[player.id].wants_to_drop_item = Some(WantsToDropItem { item: scroll });
    ItemDropSystem {}.run(&mut world).unwrap();
    assert_eq!(world.entities[scroll.id].position, Some(Position { x: 6, y: 9 }));
    assert!(world.entities[scroll.id].in_backpack.is_none());
    assert_eq!(world.log.entries, vec!["You drop the Magic Missile Scroll.".to_string()]);
    assert!(world.entities[player.id].wants_to_drop_item.is_none());
}

#[test]
fn drop_by_someone_without_a_place_is_a_fault() {
    let mut world = open_world(20, 20);
    let _player = spawn_player(&mut world, 6, 9);
    let ghost = world.create_entity();
    let scroll = spawn(&mut world, SpawnKind::MagicMissileScroll, 1, 1);
    world.entities[ghost.id].wants_to_drop_item = Some(WantsToDropItem { item: scroll });
    assert_eq!(ItemDropSystem {}.run(&mut world), Err(Fault::MissingPosition));
}

#[test]
fn drop_of_a_deleted_item_is_a_fault() {
    let mut world = open_world(20, 20);
    let player = spawn_player(&mut world, 6, 9);
    world.entities[player.id].wants_to_drop_item = Some(WantsToDropItem { item: Entity { id: 40 } });
    assert_eq!(ItemDropSystem {}.run(&mut world), Err(Fault::NoSuchEntity));
}

#[test]
fn magic_missile_hurts_whoever_stands_on_the_target_tile() {
    let mut world = open_world(20, 20);
    let player = spawn_player(&mut world, 5, 5);
    let goblin = spawn(&mut world, SpawnKind::Goblin, 8, 5);
    let orc = spawn(&mut world, SpawnKind::Orc, 9, 5);
    let scroll = spawn(&mut world, SpawnKind::MagicMissileScroll, 1, 1);
    stow(&mut world, scroll, player);
    MapIndexingSystem {}.run(&mut world);
    world.entities[player.id].wants_to_use_item =
        Some(WantsToUseItem { item: scroll, target: Some(Coord { x: 8, y: 5 }) });
    ItemUseSystem {}.run(&mut world).unwrap();
    assert_eq!(world.entities[goblin.id].suffer_damage.as_ref().unwrap().amount, vec![8]);
    assert!(world.entities[orc.id].suffer_damage.is_none());
    assert_eq!(
        world.log.entries,
        vec!["You use Magic Missile Scroll on Goblin, inflicting 8 damage.".to_string()]
    );
    assert_eq!(world.pending_deletions, vec![scroll]);
}

#[test]
fn missile_at_an_empty_tile_is_not_used_up() {
    let mut world = open_world(20, 20);
    let player = spawn_player(&mut world, 5, 5);
    let scroll = spawn(&mut world, SpawnKind::MagicMissileScroll, 1, 1);
    stow(&mut world, scroll, player);
    MapIndexingSystem {}.run(&mut world);
    world.entities[player.id].wants_to_use_item =
        Some(WantsToUseItem { item: scroll, target: Some(Coord { x: 8, y: 5 }) });
    ItemUseSystem {}.run(&mut world).unwrap();
    assert!(world.pending_deletions.is_empty());
    assert!(world.log.entries.is_empty());
    assert!(world.entities[player.id].wants_to_use_item.is_none());
}

#[test]
fn fireball_reaches_those_in_view_within_its_radius_and_off_the_edge() {
    let mut world = open_world(20, 20);
    let player = spawn_player(&mut world, 2, 10);
    let near = spawn(&mut world, SpawnKind::Goblin, 11, 10);
    let at_centre = spawn(&mut world, SpawnKind::Orc, 10, 10);
    let far = spawn(&mut world, SpawnKind::Goblin, 10, 15);
    let scroll = spawn(&mut world, SpawnKind::FireballScroll, 1, 1);
    stow(&mut world, scroll, player);
    MapIndexingSystem {}.run(&mut world);
    world.entities[player.id].wants_to_use_item =
        Some(WantsToUseItem { item: scroll, target: Some(Coord { x: 10, y: 10 }) });
    ItemUseSystem {}.run(&mut world).unwrap();
    assert_eq!(world.entities[near.id].suffer_damage.as_ref().unwrap().amount, vec![20]);
    assert_eq!(world.entities[at_centre.id].suffer_damage.as_ref().unwrap().amount, vec![20]);
    assert!(world.entities[far.id].suffer_damage.is_none());
    assert!(world.entities[player.id].suffer_damage.is_none());
    assert_eq!(world.pending_deletions, vec![scroll]);
    assert_eq!(world.log.entries.len(), 2);
}

#[test]
fn fireball_spares_the_outermost_ring_of_the_level() {
    let mut world = open_world(20, 20);
    let player = spawn_player(&mut world, 5, 5);
    let on_edge = spawn(&mut world, SpawnKind::Goblin, 0, 2);
    let inside = spawn(&mut world, SpawnKind::Goblin, 1, 2);
    let scroll = spawn(&mut world, SpawnKind::FireballScroll, 1, 1);
    stow(&mut world, scroll, player);
    MapIndexingSystem {}.run(&mut world);
    world.entities[player.id].wants_to_use_item =
        Some(WantsToUseItem { item: scroll, target: Some(Coord { x: 2, y: 2 }) });
    ItemUseSystem {}.run(&mut world).unwrap();
    assert!(world.entities[on_edge.id].suffer_damage.is_none());
    assert_eq!(world.entities[inside.id].suffer_damage.as_ref().unwrap().amount, vec![20]);
}

#[test]
fn fireball_does_not_pass_through_walls() {
    let mut world = open_world(20, 20);
    for y in 0..20 {
        let idx = world.map.xy_idx(12, y);
        world.map.tiles[idx] = TileType::Wall;
    }
    let player = spawn_player(&mut world, 5, 10);
    let behind = spawn(&mut world, SpawnKind::Goblin, 13, 10);
    let before = spawn(&mut world, SpawnKind::Goblin, 11, 10);
    let scroll = spawn(&mut world, SpawnKind::FireballScroll, 1, 1);
    stow(&mut world, scroll, player);
    MapIndexingSystem {}.run(&mut world);
    world.entities[player.id].wants_to_use_item =
        Some(WantsToUseItem { item: scroll, target: Some(Coord { x: 10, y: 10 }) });
    ItemUseSystem {}.run(&mut world).unwrap();
    assert!(world.entities[behind.id].suffer_damage.is_none());
    assert_eq!(world.entities[before.id].suffer_damage.as_ref().unwrap().amount, vec![20]);
}

#[test]
fn fireball_also_damages_items_that_lie_in_the_blast() {
    let mut world = open_world(20, 20);
    let player = spawn_player(&mut world, 5, 10);
    let potion = spawn(&mut world, SpawnKind::HealthPotion, 10, 11);
    let scroll = spawn(&mut world, SpawnKind::FireballScroll, 1, 1);
    stow(&mut world, scroll, player);
    MapIndexingSystem {}.run(&mut world);
    world.entities[player.id].wants_to_use_item =
        Some(WantsToUseItem { item: scroll, target: Some(Coord { x: 10, y: 10 }) });
    ItemUseSystem {}.run(&mut world).unwrap();
    assert_eq!(world.entities[potion.id].suffer_damage.as_ref().unwrap().amount, vec![20]);
}

#[test]
fn confusion_scroll_confuses_its_target() {
    let mut world = open_world(20, 20);
    let player = spawn_player(&mut world, 5, 5);
    let goblin = spawn(&mut world, SpawnKind::Goblin, 8, 5);
    let scroll = spawn(&mut world, SpawnKind::ConfusionScroll, 1, 1);
    stow(&mut world, scroll, player);
    MapIndexingSystem {}.run(&mut world);
    world.entities[player.id].wants_to_use_item =
        Some(WantsToUseItem { item: scroll, target: Some(Coord { x: 8, y: 5 }) });
    ItemUseSystem {}.run(&mut world).unwrap();
    assert_eq!(world.entities[goblin.id].confusion, Some(Confusion { turns: 4 }));
    assert_eq!(
        world.log.entries,
        vec!["You use Confusion Scroll on Goblin, confusing them.".to_string()]
    );
    assert_eq!(world.pending_deletions, vec![scroll]);
}

#[test]
fn an_item_applies_every_capability_it_has() {
    let mut world = open_world(20, 20);
    let player = spawn_player(&mut world, 5, 5);
    world.entities[player.id].combat_stats.as_mut().unwrap().hp = 10;
    let mut c = Components::blank(true);
    c.item = Some(Item {});
    c.name = Some(Name { name: "Odd Brew".to_string() });
    c.provides_healing = Some(ProvidesHealing { heal_amount: 5 });
    c.inflicts_damage = Some(InflictsDamage { damage: 2 });
    c.confusion = Some(Confusion { turns: 3 });
    c.in_backpack = Some(InBackpack { owner: player });
    let brew = world.spawn(c);
    world.entities[player.id].wants_to_use_item = Some(WantsToUseItem { item: brew, target: None });
    ItemUseSystem {}.run(&mut world).unwrap();
    assert_eq!(hp_of(&world, player), 15);
    assert_eq!(world.entities[player.id].suffer_damage.as_ref().unwrap().amount, vec![2]);
    assert_eq!(world.entities[player.id].confusion, Some(Confusion { turns: 3 }));
    assert!(world.pending_deletions.is_empty());
    assert_eq!(
        world.log.entries,
        vec![
            "You drink the Odd Brew, healing 5 hp.".to_string(),
            "You use Odd Brew on Player, inflicting 2 damage.".to_string(),
            "You use Odd Brew on Player, confusing them.".to_string(),
        ]
    );
}

#[test]
fn an_item_without_capabilities_does_nothing_and_stays() {
    let mut world = open_world(20, 20);
    let player = spawn_player(&mut world, 5, 5);
    let mut c = Components::blank(true);
    c.item = Some(Item {});
    c.consumable = Some(Consumable {});
    c.name = Some(Name { name: "Pebble".to_string() });
    c.in_backpack = Some(InBackpack { owner: player });
    let pebble = world.spawn(c);
    world.entities[player.id].wants_to_use_item = Some(WantsToUseItem { item: pebble, target: None });
    ItemUseSystem {}.run(&mut world).unwrap();
    assert!(world.pending_deletions.is_empty());
    assert!(world.log.entries.is_empty());
}

#[test]
fn use_of_a_nameless_item_by_the_player_is_a_fault() {
    let mut world = open_world(20, 20);
    let player = spawn_player(&mut world, 5, 5);
    let mut c = Components::blank(true);
    c.item = Some(Item {});
    c.provides_healing = Some(ProvidesHealing { heal_amount: 5 });
    let brew = world.spawn(c);
    world.entities[player.id].wants_to_use_item = Some(WantsToUseItem { item: brew, target: None });
    assert_eq!(ItemUseSystem {}.run(&mut world), Err(Fault::MissingName));
}

#[test]
fn harm_aimed_at_a_stale_occupant_is_a_fault() {
    let mut world = open_world(20, 20);
    let player = spawn_player(&mut world, 5, 5);
    let goblin = spawn(&mut world, SpawnKind::Goblin, 8, 5);
    let scroll = spawn(&mut world, SpawnKind::MagicMissileScroll, 1, 1);
    stow(&mut world, scroll, player);
    MapIndexingSystem {}.run(&mut world);
    world.delete_entity(goblin).unwrap();
    world.entities[player.id].wants_to_use_item =
        Some(WantsToUseItem { item: scroll, target: Some(Coord { x: 8, y: 5 }) });
    assert_eq!(ItemUseSystem {}.run(&mut world), Err(Fault::NoSuchEntity));
}

#[test]
fn run_with_takes_the_blast_it_is_given() {
    let mut world = open_world(20, 20);
    let player = spawn_player(&mut world, 5, 5);
    let goblin = spawn(&mut world, SpawnKind::Goblin, 8, 5);
    let orc = spawn(&mut world, SpawnKind::Orc, 0, 5);
    let scroll = spawn(&mut world, SpawnKind::FireballScroll, 1, 1);
    stow(&mut world, scroll, player);
    MapIndexingSystem {}.run(&mut world);
    world.entities[player.id].wants_to_use_item =
        Some(WantsToUseItem { item: scroll, target: Some(Coord { x: 8, y: 5 }) });
    let blasts = vec![
        vec![Coord { x: 0, y: 5 }, Coord { x: 8, y: 5 }, Coord { x: 40, y: 5 }],
        vec![],
        vec![],
        vec![],
    ];
    ItemUseSystem {}.run_with(&mut world, &blasts).unwrap();
    assert_eq!(world.entities[goblin.id].suffer_damage.as_ref().unwrap().amount, vec![20]);
    assert!(world.entities[orc.id].suffer_damage.is_none());
}

#[test]
fn spawned_items_are_aimed_or_not_as_their_kind_says() {
    let mut world = open_world(20, 20);
    let potion = spawn(&mut world, SpawnKind::HealthPotion, 1, 1);
    let fireball = spawn(&mut world, SpawnKind::FireballScroll, 1, 2);
    assert!(world.entities[potion.id].ranged.is_none());
    assert_eq!(world.entities[fireball.id].ranged, Some(Ranged { range: 6 }));
    assert_eq!(world.entities[fireball.id].area_of_effect, Some(AreaOfEffect { radius: 3 }));
    assert_eq!(world.entities[potion.id].provides_healing, Some(ProvidesHealing { heal_amount: 8 }));
    assert!(world.entities[potion.id].player.is_none());
    let _ = CombatStats { max_hp: 1, hp: 1, defense: 0, power: 0 };
    let _ = Player {};
}

#[test]
fn a_fireball_that_reaches_no_one_is_not_used_up() {
    let mut world = open_world(20, 20);
    let player = spawn_player(&mut world, 2, 2);
    let scroll = spawn(&mut world, SpawnKind::FireballScroll, 1, 1);
    stow(&mut world, scroll, player);
    MapIndexingSystem {}.run(&mut world);
    world.entities[player.id].wants_to_use_item =
        Some(WantsToUseItem { item: scroll, target: Some(Coord { x: 12, y: 12 }) });
    ItemUseSystem {}.run(&mut world).unwrap();
    assert!(world.pending_deletions.is_empty());
    assert!(world.log.entries.is_empty());
    assert!(world.entities[player.id].wants_to_use_item.is_none());
    assert!(world.is_alive(scroll));
}
