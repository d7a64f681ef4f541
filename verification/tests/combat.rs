use roguelike::components::{CombatStats, Components, Entity, Name, Player, WantsToMelee};
use roguelike::damage_system::{delete_the_dead, DamageSystem};
use roguelike::map::{GameMap, TileType};
use roguelike::melee_combat_system::MeleeCombatSystem;
use roguelike::state::RunState;
use roguelike::world::{Fault, World};

fn open_world(width: i32, height: i32) -> World {
    let mut map = GameMap::new(width, height, 1);
    for tile in map.tiles.iter_mut() {
        *tile = TileType::Floor;
    }
    World::new(map, RunState::PreRun)
}

fn fighter(world: &mut World, name: &str, hp: i32, defense: i32, power: i32) -> Entity {
    let mut c = Components::blank(true);
    c.name = Some(Name { name: name.to_string() });
    c.combat_stats = Some(CombatStats { max_hp: hp, hp, defense, power });
    world.spawn(c)
}

fn hp_of(world: &World, e: Entity) -> i32 {
    world.entities[e.id].combat_stats.unwrap().hp
}

#[test]
fn an_attack_reduces_hit_points_by_power_less_defense() {
    let mut world = open_world(10, 10);
    let attacker = fighter(&mut world, "Hero", 30, 2, 5);
    let target = fighter(&mut world, "Goblin", 16, 2, 4);
    world.entities[attacker.id].wants_to_melee = Some(WantsToMelee { target });
    MeleeCombatSystem {}.run(&mut world).unwrap();
    assert_eq!(world.entities[target.id].suffer_damage.as_ref().unwrap().amount, vec![3]);
    assert_eq!(hp_of(&world, target), 16);
    DamageSystem {}.run(&mut world);
    assert_eq!(hp_of(&world, target), 13);
    assert_eq!(world.log.entries, vec!["Hero hits Goblin for 3 damage!".to_string()]);
    assert!(world.entities[attacker.id].wants_to_melee.is_none());
}

#[test]
fn equal_power_and_defense_cannot_hurt() {
    let mut world = open_world(10, 10);
    let attacker = fighter(&mut world, "Orc", 16, 1, 4);
    let target = fighter(&mut world, "Knight", 20, 4, 3);
    world.entities[attacker.id].wants_to_melee = Some(WantsToMelee { target });
    MeleeCombatSystem {}.run(&mut world).unwrap();
    DamageSystem {}.run(&mut world);
    assert_eq!(hp_of(&world, target), 20);
    assert!(world.entities[target.id].suffer_damage.is_none());
    assert_eq!(world.log.entries, vec!["Orc is unable to hurt Knight.".to_string()]);
}

#[test]
fn weaker_attacker_does_no_damage_either() {
    let mut world = open_world(10, 10);
    let attacker = fighter(&mut world, "Rat", 4, 0, 1);
    let target = fighter(&mut world, "Knight", 20, 4, 3);
    world.entities[attacker.id].wants_to_melee = Some(WantsToMelee { target });
    MeleeCombatSystem {}.run(&mut world).unwrap();
    DamageSystem {}.run(&mut world);
    assert_eq!(hp_of(&world, target), 20);
    assert_eq!(world.log.entries, vec!["Rat is unable to hurt Knight.".to_string()]);
}

#[test]
fn a_negative_amount_in_the_queue_adds_hit_points() {
    let mut world = open_world(10, 10);
    let e = fighter(&mut world, "Golem", 10, 0, 0);
    world.new_damage(e, -4).unwrap();
    DamageSystem {}.run(&mut world);
    assert_eq!(hp_of(&world, e), 14);
}

#[test]
fn attackers_strike_in_slot_order_and_damage_adds_up() {
    let mut world = open_world(10, 10);
    let target = fighter(&mut world, "Troll", 40, 1, 9);
    let first = fighter(&mut world, "Ann", 10, 0, 4);
    let second = fighter(&mut world, "Bob", 10, 0, 6);
    world.entities[first.id].wants_to_melee = Some(WantsToMelee { target });
    world.entities[second.id].wants_to_melee = Some(WantsToMelee { target });
    MeleeCombatSystem {}.run(&mut world).unwrap();
    assert_eq!(world.entities[target.id].suffer_damage.as_ref().unwrap().amount, vec![3, 5]);
    assert_eq!(
        world.log.entries,
        vec!["Ann hits Troll for 3 damage!".to_string(), "Bob hits Troll for 5 damage!".to_string()]
    );
    DamageSystem {}.run(&mut world);
    assert_eq!(hp_of(&world, target), 32);
    assert!(world.entities[target.id].suffer_damage.is_none());
}

#[test]
fn damage_may_take_hit_points_below_zero() {
    let mut world = open_world(10, 10);
    let e = fighter(&mut world, "Bat", 3, 0, 1);
    world.new_damage(e, 5).unwrap();
    world.new_damage(e, 7).unwrap();
    DamageSystem {}.run(&mut world);
    assert_eq!(hp_of(&world, e), -9);
}

#[test]
fn damage_that_does_not_fit_stops_at_the_smallest_value() {
    let mut world = open_world(10, 10);
    let e = fighter(&mut world, "Bat", i32::MIN + 1, 0, 1);
    world.new_damage(e, 5).unwrap();
    DamageSystem {}.run(&mut world);
    assert_eq!(hp_of(&world, e), i32::MIN);
}

#[test]
fn queue_without_hit_points_is_dropped() {
    let mut world = open_world(10, 10);
    let e = world.create_entity();
    world.new_damage(e, 5).unwrap();
    DamageSystem {}.run(&mut world);
    assert!(world.entities[e.id].suffer_damage.is_none());
    assert!(world.entities[e.id].combat_stats.is_none());
}

#[test]
fn the_dead_and_the_nameless_do_not_attack() {
    let mut world = open_world(10, 10);
    let target = fighter(&mut world, "Troll", 40, 1, 9);
    let dead = fighter(&mut world, "Ghost", 0, 0, 5);
    let mut c = Components::blank(true);
    c.combat_stats = Some(CombatStats { max_hp: 5, hp: 5, defense: 0, power: 5 });
    let nameless = world.spawn(c);
    world.entities[dead.id].wants_to_melee = Some(WantsToMelee { target });
    world.entities[nameless.id].wants_to_melee = Some(WantsToMelee { target });
    MeleeCombatSystem {}.run(&mut world).unwrap();
    assert!(world.entities[target.id].suffer_damage.is_none());
    assert!(world.log.entries.is_empty());
    assert!(world.entities[dead.id].wants_to_melee.is_none());
    assert!(world.entities[nameless.id].wants_to_melee.is_none());
}

#[test]
fn a_target_that_is_down_is_not_struck_again() {
    let mut world = open_world(10, 10);
    let attacker = fighter(&mut world, "Hero", 30, 2, 5);
    let target = fighter(&mut world, "Goblin", 0, 1, 4);
    world.entities[attacker.id].wants_to_melee = Some(WantsToMelee { target });
    MeleeCombatSystem {}.run(&mut world).unwrap();
    assert!(world.entities[target.id].suffer_damage.is_none());
    assert!(world.log.entries.is_empty());
}

#[test]
fn attack_on_something_without_hit_points_is_a_fault() {
    let mut world = open_world(10, 10);
    let attacker = fighter(&mut world, "Hero", 30, 2, 5);
    let rock = world.create_entity();
    world.entities[attacker.id].wants_to_melee = Some(WantsToMelee { target: rock });
    assert_eq!(MeleeCombatSystem {}.run(&mut world), Err(Fault::MissingCombatStats));
}

#[test]
fn attack_on_a_missing_entity_is_a_fault() {
    let mut world = open_world(10, 10);
    let attacker = fighter(&mut world, "Hero", 30, 2, 5);
    world.entities[attacker.id].wants_to_melee = Some(WantsToMelee { target: Entity { id: 99 } });
    assert_eq!(MeleeCombatSystem {}.run(&mut world), Err(Fault::MissingCombatStats));
}

#[test]
fn attack_on_a_nameless_target_is_a_fault() {
    let mut world = open_world(10, 10);
    let attacker = fighter(&mut world, "Hero", 30, 2, 5);
    let mut c = Components::blank(true);
    c.combat_stats = Some(CombatStats { max_hp: 5, hp: 5, defense: 0, power: 5 });
    let target = world.spawn(c);
    world.entities[attacker.id].wants_to_melee = Some(WantsToMelee { target });
    assert_eq!(MeleeCombatSystem {}.run(&mut world), Err(Fault::MissingName));
}

#[test]
fn damage_against_a_deleted_entity_is_a_fault() {
    let mut world = open_world(10, 10);
    let e = fighter(&mut world, "Bat", 3, 0, 1);
    world.delete_entity(e).unwrap();
    assert_eq!(world.new_damage(e, 1), Err(Fault::NoSuchEntity));
    assert_eq!(world.delete_entity(e), Err(Fault::NoSuchEntity));
}

#[test]
fn sweep_removes_the_dead_but_never_the_player() {
    let mut world = open_world(10, 10);
    let player = fighter(&mut world, "Player", 30, 2, 5);
    world.entities[player.id].player = Some(Player {});
    let goblin = fighter(&mut world, "Goblin", 16, 1, 4);
    let orc = fighter(&mut world, "Orc", 16, 1, 4);
    world.entities[player.id].combat_stats.as_mut().unwrap().hp = -3;
    world.entities[goblin.id].combat_stats.as_mut().unwrap().hp = 0;
    delete_the_dead(&mut world);
    assert!(world.is_alive(player));
    assert_eq!(hp_of(&world, player), -3);
    assert!(!world.is_alive(goblin));
    assert!(world.entities[goblin.id].name.is_none());
    assert!(world.is_alive(orc));
    assert_eq!(
        world.log.entries,
        vec!["You are dead!".to_string(), "Goblin has died!".to_string()]
    );
}

#[test]
fn sweep_says_nothing_of_the_nameless() {
    let mut world = open_world(10, 10);
    let mut c = Components::blank(true);
    c.combat_stats = Some(CombatStats { max_hp: 5, hp: -1, defense: 0, power: 5 });
    let e = world.spawn(c);
    delete_the_dead(&mut world);
    assert!(!world.is_alive(e));
    assert!(world.log.entries.is_empty());
}

#[test]
fn sweep_leaves_the_living_alone() {
    let mut world = open_world(10, 10);
    let e = fighter(&mut world, "Bat", 1, 0, 1);
    delete_the_dead(&mut world);
    assert!(world.is_alive(e));
    assert_eq!(hp_of(&world, e), 1);
    assert!(world.log.entries.is_empty());
}
