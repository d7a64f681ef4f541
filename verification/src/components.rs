//! The components that an entity can have, and the record that holds them.

use vstd::prelude::*;
use crate::geometry::Coord;

verus! {

/// A handle to one slot of the entity store. Slots are never reused, so a
/// handle names the same entity for as long as the world exists.
#[derive(Clone, Copy, Debug, PartialEq, Eq, Structural)]
pub struct Entity {
    pub id: usize,
}

/// Where an entity stands on the map.
#[derive(Clone, Copy, Debug, PartialEq, Eq, Structural)]
pub struct Position {
    pub x: i32,
    pub y: i32,
}

impl Position {
    pub open spec fn point(self) -> Coord {
        Coord { x: self.x, y: self.y }
    }
}

/// A colour as red, green and blue bytes.
#[derive(Clone, Copy, Debug, PartialEq, Eq, Structural)]
pub struct Color {
    pub r: u8,
    pub g: u8,
    pub b: u8,
}

/// How an entity is drawn. Entities with a higher `render_order` are drawn
/// first, so lower ones end up on top.
#[derive(Clone, Copy, Debug, PartialEq, Eq, Structural)]
pub struct Renderer {
    pub glyph: u16,
    pub fg: Color,
    pub bg: Color,
    pub render_order: i32,
}

/// Marks the entity that the person at the keyboard controls.
#[derive(Clone, Copy, Debug, PartialEq, Eq, Structural)]
pub struct Player {}

#[derive(Clone, Copy, Debug, PartialEq, Eq, Structural)]
pub struct Monster {}

#[derive(Clone, Copy, Debug, PartialEq, Eq, Structural)]
pub struct Item {}

/// Marks an entity that keeps others from entering its tile.
#[derive(Clone, Copy, Debug, PartialEq, Eq, Structural)]
pub struct BlocksTile {}

/// Marks an item that is destroyed by being used.
#[derive(Clone, Copy, Debug, PartialEq, Eq, Structural)]
pub struct Consumable {}

#[derive(Clone, Copy, Debug, PartialEq, Eq, Structural)]
pub struct CombatStats {
    pub max_hp: i32,
    pub hp: i32,
    pub defense: i32,
    pub power: i32,
}

/// What an entity can currently see.
#[derive(Debug)]
pub struct Viewshed {
    pub visible_tiles: Vec<Coord>,
    pub range: i32,
    pub dirty: bool,
}

/// Damage queued against an entity during the current turn.
#[derive(Debug)]
pub struct SufferDamage {
    pub amount: Vec<i32>,
}

#[derive(Clone, Copy, Debug, PartialEq, Eq, Structural)]
pub struct WantsToMelee {
    pub target: Entity,
}

#[derive(Clone, Copy, Debug, PartialEq, Eq, Structural)]
pub struct WantsToPickupItem {
    pub collected_by: Entity,
    pub item: Entity,
}

#[derive(Clone, Copy, Debug, PartialEq, Eq, Structural)]
pub struct WantsToUseItem {
    pub item: Entity,
    pub target: Option<Coord>,
}

#[derive(Clone, Copy, Debug, PartialEq, Eq, Structural)]
pub struct WantsToDropItem {
    pub item: Entity,
}

#[derive(Clone, Copy, Debug, PartialEq, Eq, Structural)]
pub struct InBackpack {
    pub owner: Entity,
}

#[derive(Clone, Copy, Debug, PartialEq, Eq, Structural)]
pub struct Ranged {
    pub range: i32,
}

#[derive(Clone, Copy, Debug, PartialEq, Eq, Structural)]
pub struct AreaOfEffect {
    pub radius: i32,
}

#[derive(Clone, Copy, Debug, PartialEq, Eq, Structural)]
pub struct ProvidesHealing {
    pub heal_amount: i32,
}

#[derive(Clone, Copy, Debug, PartialEq, Eq, Structural)]
pub struct InflictsDamage {
    pub damage: i32,
}

/// On an item: how many turns of confusion it inflicts. On a creature: how
/// many turns of confusion it has left.
#[derive(Clone, Copy, Debug, PartialEq, Eq, Structural)]
pub struct Confusion {
    pub turns: i32,
}

#[derive(Debug)]
pub struct Name {
    pub name: String,
}

/// The mathematical content of a `Viewshed`.
pub struct ViewshedModel {
    pub visible_tiles: Seq<Coord>,
    pub range: i32,
    pub dirty: bool,
}

impl View for Viewshed {
    type V = ViewshedModel;

    open spec fn view(&self) -> ViewshedModel {
        ViewshedModel { visible_tiles: self.visible_tiles@, range: self.range, dirty: self.dirty }
    }
}

impl View for SufferDamage {
    type V = Seq<i32>;

    open spec fn view(&self) -> Seq<i32> {
        self.amount@
    }
}

impl View for Name {
    type V = Seq<char>;

    open spec fn view(&self) -> Seq<char> {
        self.name@
    }
}

/// Everything attached to one entity slot. A component that the entity does
/// not have is `None`.
#[derive(Debug)]
pub struct Components {
    pub alive: bool,
    pub position: Option<Position>,
    pub renderer: Option<Renderer>,
    pub player: Option<Player>,
    pub monster: Option<Monster>,
    pub item: Option<Item>,
    pub blocks_tile: Option<BlocksTile>,
    pub consumable: Option<Consumable>,
    pub name: Option<Name>,
    pub viewshed: Option<Viewshed>,
    pub combat_stats: Option<CombatStats>,
    pub suffer_damage: Option<SufferDamage>,
    pub wants_to_melee: Option<WantsToMelee>,
    pub wants_to_pickup_item: Option<WantsToPickupItem>,
    pub wants_to_use_item: Option<WantsToUseItem>,
    pub wants_to_drop_item: Option<WantsToDropItem>,
    pub in_backpack: Option<InBackpack>,
    pub ranged: Option<Ranged>,
    pub area_of_effect: Option<AreaOfEffect>,
    pub provides_healing: Option<ProvidesHealing>,
    pub inflicts_damage: Option<InflictsDamage>,
    pub confusion: Option<Confusion>,
}

/// The mathematical content of one entity slot.
pub struct EntityModel {
    pub alive: bool,
    pub position: Option<Position>,
    pub renderer: Option<Renderer>,
    pub player: Option<Player>,
    pub monster: Option<Monster>,
    pub item: Option<Item>,
    pub blocks_tile: Option<BlocksTile>,
    pub consumable: Option<Consumable>,
    pub name: Option<Seq<char>>,
    pub viewshed: Option<ViewshedModel>,
    pub combat_stats: Option<CombatStats>,
    pub suffer_damage: Option<Seq<i32>>,
    pub wants_to_melee: Option<WantsToMelee>,
    pub wants_to_pickup_item: Option<WantsToPickupItem>,
    pub wants_to_use_item: Option<WantsToUseItem>,
    pub wants_to_drop_item: Option<WantsToDropItem>,
    pub in_backpack: Option<InBackpack>,
    pub ranged: Option<Ranged>,
    pub area_of_effect: Option<AreaOfEffect>,
    pub provides_healing: Option<ProvidesHealing>,
    pub inflicts_damage: Option<InflictsDamage>,
    pub confusion: Option<Confusion>,
}

impl View for Components {
    type V = EntityModel;

    open spec fn view(&self) -> EntityModel {
        EntityModel {
            alive: self.alive,
            position: self.position,
            renderer: self.renderer,
            player: self.player,
            monster: self.monster,
            item: self.item,
            blocks_tile: self.blocks_tile,
            consumable: self.consumable,
            name: match self.name {
                Some(n) => Some(n@),
                None => None,
            },
            viewshed: match self.viewshed {
                Some(v) => Some(v@),
                None => None,
            },
            combat_stats: self.combat_stats,
            suffer_damage: match self.suffer_damage {
                Some(d) => Some(d@),
                None => None,
            },
            wants_to_melee: self.wants_to_melee,
            wants_to_pickup_item: self.wants_to_pickup_item,
            wants_to_use_item: self.wants_to_use_item,
            wants_to_drop_item: self.wants_to_drop_item,
            in_backpack: self.in_backpack,
            ranged: self.ranged,
            area_of_effect: self.area_of_effect,
            provides_healing: self.provides_healing,
            inflicts_damage: self.inflicts_damage,
            confusion: self.confusion,
        }
    }
}

impl EntityModel {
    /// A slot that holds nothing: what a fresh entity starts as, with
    /// `alive` set, and what a deleted one becomes, with it cleared.
    pub open spec fn blank(alive: bool) -> EntityModel {
        EntityModel {
            alive,
            position: None,
            renderer: None,
            player: None,
            monster: None,
            item: None,
            blocks_tile: None,
            consumable: None,
            name: None,
            viewshed: None,
            combat_stats: None,
            suffer_damage: None,
            wants_to_melee: None,
            wants_to_pickup_item: None,
            wants_to_use_item: None,
            wants_to_drop_item: None,
            in_backpack: None,
            ranged: None,
            area_of_effect: None,
            provides_healing: None,
            inflicts_damage: None,
            confusion: None,
        }
    }
}

impl Components {
    /// Whether no component is attached.
    pub fn is_blank(&self) -> (r: bool)
        ensures
            r == (self@ == EntityModel::blank(self.alive)),
    {
        self.position.is_none() && self.renderer.is_none() && self.player.is_none()
            && self.monster.is_none() && self.item.is_none() && self.blocks_tile.is_none()
            && self.consumable.is_none() && self.name.is_none() && self.viewshed.is_none()
            && self.combat_stats.is_none() && self.suffer_damage.is_none()
            && self.wants_to_melee.is_none() && self.wants_to_pickup_item.is_none()
            && self.wants_to_use_item.is_none() && self.wants_to_drop_item.is_none()
            && self.in_backpack.is_none() && self.ranged.is_none()
            && self.area_of_effect.is_none() && self.provides_healing.is_none()
            && self.inflicts_damage.is_none() && self.confusion.is_none()
    }

    /// A slot with no components attached.
    pub fn blank(alive: bool) -> (c: Components)
        ensures
            c@ == EntityModel::blank(alive),
    {
        Components {
            alive,
            position: None,
            renderer: None,
            player: None,
            monster: None,
            item: None,
            blocks_tile: None,
            consumable: None,
            name: None,
            viewshed: None,
            combat_stats: None,
            suffer_damage: None,
            wants_to_melee: None,
            wants_to_pickup_item: None,
            wants_to_use_item: None,
            wants_to_drop_item: None,
            in_backpack: None,
            ranged: None,
            area_of_effect: None,
            provides_healing: None,
            inflicts_damage: None,
            confusion: None,
        }
    }
}

} // verus!
