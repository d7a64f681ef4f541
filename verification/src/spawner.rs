//! What the player, the monsters and the items start as, and how rooms are
//! filled with them.

use std::collections::HashMap;
use vstd::prelude::*;
use vstd::string::*;
use crate::components::{
    AreaOfEffect,
    BlocksTile,
    Color,
    CombatStats,
    Components,
    Confusion,
    Consumable,
    Entity,
    EntityModel,
    InflictsDamage,
    Item,
    Monster,
    Name,
    Player,
    Position,
    ProvidesHealing,
    Ranged,
    Renderer,
    Viewshed,
    ViewshedModel,
};
use crate::geometry::{Coord, Rect};
use crate::map::lemma_idx_in_range;
use crate::map_builder::{in_room, room_fits};
use crate::random::roll_dice;
use crate::random_table::{RandomTable, SpawnKind};
use crate::text::{cp437, to_cp437};
use crate::world::{World, WorldModel};

verus! {

broadcast use vstd::std_specs::hash::group_hash_axioms;

/// The most monsters and items that a room is filled with.
pub const MAX_MONSTERS: i32 = 4;

pub open spec fn black() -> Color {
    Color { r: 0, g: 0, b: 0 }
}

/// What every monster starts with, apart from its looks and name.
pub open spec fn monster_template(x: i32, y: i32, glyph: u16, name: Seq<char>) -> EntityModel {
    EntityModel {
        blocks_tile: Some(BlocksTile {  }),
        combat_stats: Some(CombatStats { max_hp: 16, hp: 16, defense: 1, power: 4 }),
        monster: Some(Monster {  }),
        name: Some(name),
        position: Some(Position { x, y }),
        renderer: Some(
            Renderer { glyph, fg: Color { r: 255, g: 0, b: 0 }, bg: black(), render_order: 1 },
        ),
        viewshed: Some(ViewshedModel { visible_tiles: Seq::empty(), range: 8, dirty: true }),
        ..EntityModel::blank(true)
    }
}

/// What every scroll starts with, apart from what it does.
pub open spec fn scroll_template(x: i32, y: i32, fg: Color, name: Seq<char>) -> EntityModel {
    EntityModel {
        consumable: Some(Consumable {  }),
        item: Some(Item {  }),
        name: Some(name),
        position: Some(Position { x, y }),
        ranged: Some(Ranged { range: 6 }),
        renderer: Some(Renderer { glyph: cp437(')'), fg, bg: black(), render_order: 2 }),
        ..EntityModel::blank(true)
    }
}

/// What an entity of the given kind starts as, at `(x, y)`.
pub open spec fn template(kind: SpawnKind, x: i32, y: i32) -> EntityModel {
    match kind {
        SpawnKind::Goblin => monster_template(x, y, cp437('g'), "Goblin"@),
        SpawnKind::Orc => monster_template(x, y, cp437('o'), "Orc"@),
        SpawnKind::HealthPotion => EntityModel {
            consumable: Some(Consumable {  }),
            item: Some(Item {  }),
            name: Some("Health Potion"@),
            position: Some(Position { x, y }),
            provides_healing: Some(ProvidesHealing { heal_amount: 8 }),
            renderer: Some(
                Renderer {
                    glyph: cp437('¡'),
                    fg: Color { r: 0, g: 255, b: 0 },
                    bg: black(),
                    render_order: 2,
                },
            ),
            ..EntityModel::blank(true)
        },
        SpawnKind::FireballScroll => EntityModel {
            area_of_effect: Some(AreaOfEffect { radius: 3 }),
            inflicts_damage: Some(InflictsDamage { damage: 20 }),
            ..scroll_template(x, y, Color { r: 255, g: 165, b: 0 }, "Fireball Scroll"@)
        },
        SpawnKind::ConfusionScroll => EntityModel {
            confusion: Some(Confusion { turns: 4 }),
            ..scroll_template(x, y, Color { r: 255, g: 192, b: 203 }, "Confusion Scroll"@)
        },
        SpawnKind::MagicMissileScroll => EntityModel {
            inflicts_damage: Some(InflictsDamage { damage: 8 }),
            ..scroll_template(x, y, Color { r: 0, g: 255, b: 255 }, "Magic Missile Scroll"@)
        },
    }
}

/// What the player starts as, at `(x, y)`.
pub open spec fn player_template(x: i32, y: i32) -> EntityModel {
    EntityModel {
        combat_stats: Some(CombatStats { max_hp: 30, hp: 30, defense: 2, power: 5 }),
        name: Some("Player"@),
        player: Some(Player {  }),
        position: Some(Position { x, y }),
        renderer: Some(
            Renderer {
                glyph: cp437('@'),
                fg: Color { r: 255, g: 255, b: 0 },
                bg: black(),
                render_order: 0,
            },
        ),
        viewshed: Some(ViewshedModel { visible_tiles: Seq::empty(), range: 8, dirty: true }),
        ..EntityModel::blank(true)
    }
}

/// The world with one more entity.
pub open spec fn with_spawned(w: WorldModel, e: EntityModel) -> WorldModel {
    WorldModel { entities: w.entities.push(e), ..w }
}

fn spawn_monster(ecs: &mut World, x: i32, y: i32, glyph: u16, name: String) -> (e: Entity)
    requires
        old(ecs).wf(),
        old(ecs)@.map.in_bounds(x as int, y as int),
    ensures
        final(ecs)@ == with_spawned(old(ecs)@, monster_template(x, y, glyph, name@)),
        e.id == old(ecs)@.entities.len(),
        final(ecs).wf(),
{
    let mut c = Components::blank(true);
    c.blocks_tile = Some(BlocksTile {  });
    c.combat_stats = Some(CombatStats { max_hp: 16, hp: 16, defense: 1, power: 4 });
    c.monster = Some(Monster {  });
    c.name = Some(Name { name });
    c.position = Some(Position { x, y });
    c.renderer = Some(
        Renderer {
            glyph,
            fg: Color { r: 255, g: 0, b: 0 },
            bg: Color { r: 0, g: 0, b: 0 },
            render_order: 1,
        },
    );
    c.viewshed = Some(Viewshed { visible_tiles: Vec::new(), range: 8, dirty: true });
    proof {
        assert(c@.viewshed.unwrap().visible_tiles =~= Seq::<Coord>::empty());
    }
    ecs.spawn(c)
}

fn spawn_goblin(ecs: &mut World, x: i32, y: i32) -> (e: Entity)
    requires
        old(ecs).wf(),
        old(ecs)@.map.in_bounds(x as int, y as int),
    ensures
        final(ecs)@ == with_spawned(old(ecs)@, template(SpawnKind::Goblin, x, y)),
        e.id == old(ecs)@.entities.len(),
        final(ecs).wf(),
{
    spawn_monster(ecs, x, y, to_cp437('g'), String::from_str("Goblin"))
}

fn spawn_orc(ecs: &mut World, x: i32, y: i32) -> (e: Entity)
    requires
        old(ecs).wf(),
        old(ecs)@.map.in_bounds(x as int, y as int),
    ensures
        final(ecs)@ == with_spawned(old(ecs)@, template(SpawnKind::Orc, x, y)),
        e.id == old(ecs)@.entities.len(),
        final(ecs).wf(),
{
    spawn_monster(ecs, x, y, to_cp437('o'), String::from_str("Orc"))
}

fn scroll(x: i32, y: i32, fg: Color, name: String) -> (c: Components)
    ensures
        c@ == scroll_template(x, y, fg, name@),
{
    let mut c = Components::blank(true);
    c.consumable = Some(Consumable {  });
    c.item = Some(Item {  });
    c.name = Some(Name { name });
    c.position = Some(Position { x, y });
    c.ranged = Some(Ranged { range: 6 });
    c.renderer = Some(
        Renderer { glyph: to_cp437(')'), fg, bg: Color { r: 0, g: 0, b: 0 }, render_order: 2 },
    );
    c
}

fn spawn_confusion_scroll(ecs: &mut World, x: i32, y: i32) -> (e: Entity)
    requires
        old(ecs).wf(),
        old(ecs)@.map.in_bounds(x as int, y as int),
    ensures
        final(ecs)@ == with_spawned(old(ecs)@, template(SpawnKind::ConfusionScroll, x, y)),
        e.id == old(ecs)@.entities.len(),
        final(ecs).wf(),
{
    let mut c = scroll(x, y, Color { r: 255, g: 192, b: 203 }, String::from_str("Confusion Scroll"));
    c.confusion = Some(Confusion { turns: 4 });
    ecs.spawn(c)
}

fn spawn_fireball_scroll(ecs: &mut World, x: i32, y: i32) -> (e: Entity)
    requires
        old(ecs).wf(),
        old(ecs)@.map.in_bounds(x as int, y as int),
    ensures
        final(ecs)@ == with_spawned(old(ecs)@, template(SpawnKind::FireballScroll, x, y)),
        e.id == old(ecs)@.entities.len(),
        final(ecs).wf(),
{
    let mut c = scroll(x, y, Color { r: 255, g: 165, b: 0 }, String::from_str("Fireball Scroll"));
    c.area_of_effect = Some(AreaOfEffect { radius: 3 });
    c.inflicts_damage = Some(InflictsDamage { damage: 20 });
    ecs.spawn(c)
}

fn spawn_magic_missile_scroll(ecs: &mut World, x: i32, y: i32) -> (e: Entity)
    requires
        old(ecs).wf(),
        old(ecs)@.map.in_bounds(x as int, y as int),
    ensures
        final(ecs)@ == with_spawned(old(ecs)@, template(SpawnKind::MagicMissileScroll, x, y)),
        e.id == old(ecs)@.entities.len(),
        final(ecs).wf(),
{
    let mut c = scroll(
        x,
        y,
        Color { r: 0, g: 255, b: 255 },
        String::from_str("Magic Missile Scroll"),
    );
    c.inflicts_damage = Some(InflictsDamage { damage: 8 });
    ecs.spawn(c)
}

fn spawn_health_potion(ecs: &mut World, x: i32, y: i32) -> (e: Entity)
    requires
        old(ecs).wf(),
        old(ecs)@.map.in_bounds(x as int, y as int),
    ensures
        final(ecs)@ == with_spawned(old(ecs)@, template(SpawnKind::HealthPotion, x, y)),
        e.id == old(ecs)@.entities.len(),
        final(ecs).wf(),
{
    let mut c = Components::blank(true);
    c.consumable = Some(Consumable {  });
    c.item = Some(Item {  });
    c.name = Some(Name { name: String::from_str("Health Potion") });
    c.position = Some(Position { x, y });
    c.provides_healing = Some(ProvidesHealing { heal_amount: 8 });
    c.renderer = Some(
        Renderer {
            glyph: to_cp437('¡'),
            fg: Color { r: 0, g: 255, b: 0 },
            bg: Color { r: 0, g: 0, b: 0 },
            render_order: 2,
        },
    );
    ecs.spawn(c)
}

/// Creates the player at `(player_x, player_y)` and makes it the one that
/// the world knows as its player.
pub fn spawn_player(ecs: &mut World, player_x: i32, player_y: i32) -> (e: Entity)
    requires
        old(ecs).wf(),
        old(ecs)@.map.in_bounds(player_x as int, player_y as int),
    ensures
        final(ecs)@ == (WorldModel {
            player: e,
            player_position: Coord { x: player_x, y: player_y },
            ..with_spawned(old(ecs)@, player_template(player_x, player_y))
        }),
        e.id == old(ecs)@.entities.len(),
        final(ecs).wf(),
{
    let mut c = Components::blank(true);
    c.combat_stats = Some(CombatStats { max_hp: 30, hp: 30, defense: 2, power: 5 });
    c.name = Some(Name { name: String::from_str("Player") });
    c.player = Some(Player {  });
    c.position = Some(Position { x: player_x, y: player_y });
    c.renderer = Some(
        Renderer {
            glyph: to_cp437('@'),
            fg: Color { r: 255, g: 255, b: 0 },
            bg: Color { r: 0, g: 0, b: 0 },
            render_order: 0,
        },
    );
    c.viewshed = Some(Viewshed { visible_tiles: Vec::new(), range: 8, dirty: true });
    proof {
        assert(c@.viewshed.unwrap().visible_tiles =~= Seq::<Coord>::empty());
    }
    let e = ecs.spawn(c);
    let ghost spawned = ecs@;
    ecs.player = e;
    ecs.player_position = Coord { x: player_x, y: player_y };
    proof {
        assert(ecs@.entities =~= spawned.entities);
        assert forall|i: int| 0 <= i < ecs@.entities.len() implies #[trigger] ecs@.slot_wf(i) by {
            assert(spawned.slot_wf(i));
        }
    }
    e
}

/// Creates an entity of the given kind at `(x, y)`.
pub fn spawn(ecs: &mut World, kind: SpawnKind, x: i32, y: i32) -> (e: Entity)
    requires
        old(ecs).wf(),
        old(ecs)@.map.in_bounds(x as int, y as int),
    ensures
        final(ecs)@ == with_spawned(old(ecs)@, template(kind, x, y)),
        e.id == old(ecs)@.entities.len(),
        final(ecs).wf(),
{
    match kind {
        SpawnKind::Goblin => spawn_goblin(ecs, x, y),
        SpawnKind::Orc => spawn_orc(ecs, x, y),
        SpawnKind::HealthPotion => spawn_health_potion(ecs, x, y),
        SpawnKind::FireballScroll => spawn_fireball_scroll(ecs, x, y),
        SpawnKind::ConfusionScroll => spawn_confusion_scroll(ecs, x, y),
        SpawnKind::MagicMissileScroll => spawn_magic_missile_scroll(ecs, x, y),
    }
}

/// A weight as the table takes it: nothing if it is not positive.
pub open spec fn counted(weight: int) -> int {
    if weight > 0 {
        weight
    } else {
        0
    }
}

/// The sum of the weights of the table for rooms at the given depth.
pub open spec fn room_table_weight(map_depth: int) -> int {
    21 + counted(1 + map_depth) + 2 * counted(2 + map_depth)
}

/// The table of what rooms are filled with. Orcs and the stronger scrolls
/// become more common with depth.
pub fn room_table(map_depth: i32) -> (table: RandomTable)
    requires
        room_table_weight(map_depth as int) <= i32::MAX,
    ensures
        table.wf(),
        table.total_weight == room_table_weight(map_depth as int),
{
    let orc: i64 = 1 + map_depth as i64;
    let scroll: i64 = 2 + map_depth as i64;
    RandomTable::new().add(SpawnKind::Goblin, 10).add(
        SpawnKind::Orc,
        if orc > 0 {
            orc as i32
        } else {
            0
        },
    ).add(SpawnKind::HealthPotion, 7).add(
        SpawnKind::FireballScroll,
        if scroll > 0 {
            scroll as i32
        } else {
            0
        },
    ).add(
        SpawnKind::ConfusionScroll,
        if scroll > 0 {
            scroll as i32
        } else {
            0
        },
    ).add(SpawnKind::MagicMissileScroll, 4)
}

/// A place in a room and what is to be put there, if anything.
#[derive(Clone, Copy, Debug, PartialEq, Eq, Structural)]
pub struct SpawnPoint {
    pub x: i32,
    pub y: i32,
    pub kind: Option<SpawnKind>,
}

/// Whether no two of the points are the same place.
pub open spec fn places_differ(points: Seq<SpawnPoint>) -> bool {
    forall|i: int, j: int|
        #![trigger points[i], points[j]]
        0 <= i < j < points.len() ==> points[i].x != points[j].x || points[i].y != points[j].y
}

/// Whether all of the points lie on the floor of `room`.
pub open spec fn places_in(points: Seq<SpawnPoint>, room: Rect) -> bool {
    forall|i: int|
        0 <= i < points.len() ==> in_room(
            room,
            (#[trigger] points[i]).x as int,
            points[i].y as int,
        )
}

/// The entities that the first `n` points give rise to, in order.
pub open spec fn spawned_upto(points: Seq<SpawnPoint>, n: int) -> Seq<EntityModel>
    decreases n,
{
    if n <= 0 {
        Seq::empty()
    } else {
        match points[n - 1].kind {
            Some(kind) => spawned_upto(points, n - 1).push(
                template(kind, points[n - 1].x, points[n - 1].y),
            ),
            None => spawned_upto(points, n - 1),
        }
    }
}

/// The world after something has been put at each of the points.
pub open spec fn populated(w: WorldModel, points: Seq<SpawnPoint>) -> WorldModel {
    WorldModel { entities: w.entities + spawned_upto(points, points.len() as int), ..w }
}

/// Puts something at each of the points, in order.
pub fn populate(ecs: &mut World, points: &Vec<SpawnPoint>)
    requires
        old(ecs).wf(),
        forall|i: int|
            0 <= i < points@.len() ==> old(ecs)@.map.in_bounds(
                (#[trigger] points@[i]).x as int,
                points@[i].y as int,
            ),
    ensures
        final(ecs)@ == populated(old(ecs)@, points@),
        final(ecs).wf(),
{
    let mut i: usize = 0;
    proof {
        assert(ecs@.entities =~= old(ecs)@.entities + spawned_upto(points@, 0));
    }
    while i < points.len()
        invariant
            i <= points@.len(),
            ecs.wf(),
            forall|j: int|
                0 <= j < points@.len() ==> old(ecs)@.map.in_bounds(
                    (#[trigger] points@[j]).x as int,
                    points@[j].y as int,
                ),
            ecs@ == (WorldModel {
                entities: old(ecs)@.entities + spawned_upto(points@, i as int),
                ..old(ecs)@
            }),
        decreases points@.len() - i,
    {
        let p = points[i];
        let ghost before = ecs@;
        match p.kind {
            Some(kind) => {
                spawn(ecs, kind, p.x, p.y);
                proof {
                    assert(ecs@.entities =~= old(ecs)@.entities + spawned_upto(points@, i + 1));
                }
            },
            None => {},
        }
        i += 1;
    }
}

/// Lists what a table of places holds, each place with what it is to
/// receive, in the order in which the table hands its entries out.
fn listed(ecs: &World, room: &Rect, spawn_points: &HashMap<usize, Option<SpawnKind>>) -> (points: Vec<
    SpawnPoint,
>)
    requires
        ecs.wf(),
        spawn_points@.dom().finite(),
        forall|k: usize|
            spawn_points@.contains_key(k) ==> k < ecs@.map.area() && in_room(
                *room,
                k as int % (ecs@.map.width as int),
                k as int / (ecs@.map.width as int),
            ),
    ensures
        points@.len() == spawn_points@.dom().len(),
        places_differ(points@),
        places_in(points@, *room),
        forall|i: int|
            0 <= i < points@.len() ==> ecs@.map.in_bounds(
                (#[trigger] points@[i]).x as int,
                points@[i].y as int,
            ),
{
    let mut points: Vec<SpawnPoint> = Vec::new();
    for entry in it: spawn_points.iter()
        invariant
            ecs.wf(),
            forall|k: usize|
                spawn_points@.contains_key(k) ==> k < ecs@.map.area() && in_room(
                    *room,
                    k as int % (ecs@.map.width as int),
                    k as int / (ecs@.map.width as int),
                ),
            it.seq().len() == spawn_points@.dom().len(),
            it.seq().no_duplicates(),
            forall|j: int|
                0 <= j < it.seq().len() ==> spawn_points@.contains_key(
                    *(#[trigger] it.seq()[j]).0,
                ) && spawn_points@[*it.seq()[j].0] == *it.seq()[j].1,
            points@.len() == it.index(),
            points@.len() <= it.seq().len(),
            forall|j: int|
                0 <= j < points@.len() ==> {
                    let p = #[trigger] points@[j];
                    &&& ecs@.map.in_bounds(p.x as int, p.y as int)
                    &&& ecs@.map.idx(p.x as int, p.y as int) == *it.seq()[j].0
                    &&& in_room(*room, p.x as int, p.y as int)
                },
        ensures
            points@.len() == spawn_points@.dom().len(),
            places_differ(points@),
            places_in(points@, *room),
            forall|i: int|
                0 <= i < points@.len() ==> ecs@.map.in_bounds(
                    (#[trigger] points@[i]).x as int,
                    points@[i].y as int,
                ),
    {
        let (index, kind) = entry;
        let place = ecs.map.idx_xy(*index);
        points.push(SpawnPoint { x: place.x, y: place.y, kind: *kind });
    }
    points
}

/// Fills a room with up to four monsters and items, no two on the same
/// tile. How many there are, where they are, what they are and in which
/// order they are created is left to chance.
pub fn fill_room(
    ecs: &mut World,
    rng: &mut rltk::RandomNumberGenerator,
    room: &Rect,
    map_depth: i32,
)
    requires
        old(ecs).wf(),
        room_fits(old(ecs)@.map, *room),
        room.x1 < room.x2,
        room.y1 < room.y2,
        room_table_weight(map_depth as int) < i32::MAX,
    ensures
        exists|points: Seq<SpawnPoint>|
            points.len() <= MAX_MONSTERS && places_differ(points) && places_in(points, *room)
                && final(ecs)@ == #[trigger] populated(old(ecs)@, points),
        final(ecs).wf(),
{
    let spawn_table = room_table(map_depth);
    let mut spawn_points: HashMap<usize, Option<SpawnKind>> = HashMap::new();
    let total_spawns = roll_dice(rng, 1, MAX_MONSTERS + 3) - 3;
    let ghost w = ecs@.map.width as int;
    let mut i: i32 = 0;
    while i < total_spawns
        invariant
            0 <= i,
            i <= total_spawns || i == 0,
            total_spawns <= MAX_MONSTERS,
            ecs.wf(),
            *ecs == *old(ecs),
            w == ecs@.map.width,
            spawn_points@.dom().finite(),
            spawn_points@.dom().len() <= i,
            forall|k: usize|
                spawn_points@.contains_key(k) ==> k < ecs@.map.area() && in_room(
                    *room,
                    k as int % w,
                    k as int / w,
                ),
            spawn_table.wf(),
            spawn_table.total_weight < i32::MAX,
            room_fits(ecs@.map, *room),
            room.x1 < room.x2,
            room.y1 < room.y2,
        decreases total_spawns - i,
    {
        let mut added = false;
        let mut tries: i32 = 0;
        while !added && tries < 20
            invariant
                0 <= tries <= 20,
                0 <= i < total_spawns,
                total_spawns <= MAX_MONSTERS,
                ecs.wf(),
                *ecs == *old(ecs),
                w == ecs@.map.width,
                spawn_points@.dom().finite(),
                spawn_points@.dom().len() <= i + (if added {
                    1int
                } else {
                    0int
                }),
                forall|k: usize|
                    spawn_points@.contains_key(k) ==> k < ecs@.map.area() && in_room(
                        *room,
                        k as int % w,
                        k as int / w,
                    ),
                spawn_table.wf(),
                spawn_table.total_weight < i32::MAX,
                room_fits(ecs@.map, *room),
                room.x1 < room.x2,
                room.y1 < room.y2,
            decreases
                    20 - tries + (if added {
                        0int
                    } else {
                        1int
                    }),
        {
            let x = room.x1 + roll_dice(rng, 1, room.x2 - room.x1);
            let y = room.y1 + roll_dice(rng, 1, room.y2 - room.y1);
            let index = ecs.map.xy_idx(x, y);
            proof {
                lemma_idx_in_range(ecs@.map, x as int, y as int);
            }
            if !spawn_points.contains_key(&index) {
                let kind = spawn_table.roll(rng);
                spawn_points.insert(index, kind);
                added = true;
            } else {
                tries += 1;
            }
        }
        i += 1;
    }
    let points = listed(ecs, room, &spawn_points);
    populate(ecs, &points);
    proof {
        assert(populated(old(ecs)@, points@) == ecs@);
    }
}

} // verus!
