//! The turn cycle: the pass over the systems, and the tick that drives it
//! from the current phase.

use vstd::prelude::*;
use crate::components::{
    CombatStats,
    Components,
    Entity,
    EntityModel,
    Position,
    ViewshedModel,
    WantsToDropItem,
    WantsToUseItem,
};
use crate::damage_system::{damage_system, dead_swept, delete_the_dead, DamageSystem};
use crate::geometry::{trunc_half, Coord};
use crate::gui::{
    drop_item_menu,
    item_menu_choice,
    main_menu,
    main_menu_choice,
    ranged_target,
    show_inventory,
    target_choice,
    ItemMenuResult,
    MainMenuResult,
    MainMenuSelection,
    MenuKey,
};
use crate::inventory_system::{
    item_collection_system,
    item_drop_system,
    ItemCollectionSystem,
    ItemDropSystem,
};
use crate::item_use_system::{blasts_fit, item_use_system, ItemUseSystem};
use crate::map::{GameMap, MapModel};
use crate::map_indexing_system::{map_indexing_system, MapIndexingSystem};
use crate::melee_combat_system::{melee_system, MeleeCombatSystem};
use crate::monster_ai_system::{
    monster_ai_system,
    path_models,
    path_requests,
    MonsterAI,
    PathAnswer,
    PathModel,
    PathRequest,
};
use crate::player::{input_handled, player_input, Command};
use crate::text::{descend_line, spec_descend_line};
use crate::visibility_system::{sights_fit, visibility_system, VisibilitySystem};
use crate::world::{Fault, Step, World, WorldModel};

verus! {

/// The phase of the turn cycle that the game is in.
#[derive(Clone, Copy, Debug, PartialEq, Eq, Structural)]
pub enum RunState {
    AwaitingInput,
    MainMenu { menu_selection: MainMenuSelection },
    MonsterTurn,
    NextLevel,
    PreRun,
    PlayerTurn,
    SaveGame,
    ShowDropItem,
    ShowInventory,
    ShowTargeting { range: i32, item: Entity },
}

/// The game: a world and the turn cycle that drives it.
pub struct State {
    pub ecs: World,
}

/// What the outside world delivers for one tick. Each phase reads the
/// part that concerns it and ignores the rest.
pub struct TickInput {
    /// The command given, read while the game awaits input.
    pub command: Option<Command>,
    /// The key pressed, read by the menus.
    pub key: Option<MenuKey>,
    /// Where the mouse points, and whether its button was pressed, read
    /// while a target is chosen.
    pub mouse: Coord,
    pub left_click: bool,
    /// Routes for the monsters, read on the monsters' turn.
    pub paths: Vec<PathAnswer>,
}

/// What a tick leaves for its caller to do.
#[derive(Clone, Copy, Debug, PartialEq, Eq, Structural)]
pub enum TickAction {
    /// Nothing; call again.
    Continue,
    /// End the program.
    Quit,
    /// Store the world.
    SaveGame,
    /// Fetch the stored world and hand it to `load_game`.
    LoadGame,
    /// Make a new level and hand it to `goto_next_level`.
    NextLevel,
}

/// The systems up to and including item collection.
pub open spec fn before_item_use(
    w: WorldModel,
    sights: Seq<Seq<Coord>>,
    paths: Seq<PathModel>,
) -> Step {
    let seen = visibility_system(w, sights);
    let acted = monster_ai_system(seen, paths);
    let indexed = map_indexing_system(acted);
    match melee_system(indexed) {
        Err(f) => Err(f),
        Ok(fought) => item_collection_system(damage_system(fought)),
    }
}

/// One pass over all systems in their fixed order: visibility, monster
/// AI, map indexing, melee, damage, item collection, item use, item drop,
/// and then the deletions that were put off.
pub open spec fn systems_run(
    w: WorldModel,
    sights: Seq<Seq<Coord>>,
    paths: Seq<PathModel>,
    blasts: Seq<Seq<Coord>>,
) -> Step {
    match before_item_use(w, sights, paths) {
        Err(f) => Err(f),
        Ok(collected) => match item_use_system(collected, blasts) {
            Err(f) => Err(f),
            Ok(used) => match item_drop_system(used) {
                Err(f) => Err(f),
                Ok(dropped) => Ok(dropped.maintained()),
            },
        },
    }
}

/// Whether `sights` and `blasts` are what the field-of-view computation
/// gives where the pass asks for it.
pub open spec fn views_fit(
    w: WorldModel,
    sights: Seq<Seq<Coord>>,
    paths: Seq<PathModel>,
    blasts: Seq<Seq<Coord>>,
) -> bool {
    &&& sights_fit(w, sights)
    &&& before_item_use(w, sights, paths) matches Ok(collected) ==> blasts_fit(collected, blasts)
}

/// The world with `phase` as its phase.
pub open spec fn in_phase(w: WorldModel, phase: RunState) -> WorldModel {
    WorldModel { run_state: phase, ..w }
}

/// The player's intent to use `item`, on `target` if there is one.
pub open spec fn use_intended(w: WorldModel, item: Entity, target: Option<Coord>) -> Step {
    if !w.is_alive(w.player) {
        Err(Fault::NoSuchEntity)
    } else {
        Ok(
            w.with_entity(
                w.player.id as int,
                EntityModel {
                    wants_to_use_item: Some(WantsToUseItem { item, target }),
                    ..w.entities[w.player.id as int]
                },
            ),
        )
    }
}

/// The player's intent to drop `item`.
pub open spec fn drop_intended(w: WorldModel, item: Entity) -> Step {
    if !w.is_alive(w.player) {
        Err(Fault::NoSuchEntity)
    } else {
        Ok(
            w.with_entity(
                w.player.id as int,
                EntityModel {
                    wants_to_drop_item: Some(WantsToDropItem { item }),
                    ..w.entities[w.player.id as int]
                },
            ),
        )
    }
}

/// The range of `item`, if it is one that is aimed.
pub open spec fn range_of(w: WorldModel, item: Entity) -> Option<i32> {
    if item.id < w.entities.len() {
        match w.entities[item.id as int].ranged {
            Some(r) => Some(r.range),
            None => None,
        }
    } else {
        None
    }
}

pub type Ticked = Result<(WorldModel, TickAction), Fault>;

/// A step that changes only the phase.
pub open spec fn goes_to(w: WorldModel, phase: RunState) -> Ticked {
    Ok((in_phase(w, phase), TickAction::Continue))
}

/// A step that changes the world and then the phase.
pub open spec fn then_to(r: Step, phase: RunState) -> Ticked {
    match r {
        Ok(m) => Ok((in_phase(m, phase), TickAction::Continue)),
        Err(f) => Err(f),
    }
}

/// The inventory menu's part of a tick. A selected item that is aimed
/// leads to the choice of a target; any other becomes the intent to use
/// it, which takes the player's turn.
pub open spec fn inventory_phase(w: WorldModel, key: Option<MenuKey>) -> Ticked {
    match item_menu_choice(w, key) {
        (ItemMenuResult::Cancel, _) => goes_to(w, RunState::AwaitingInput),
        (ItemMenuResult::Selected, Some(item)) => match range_of(w, item) {
            Some(range) => goes_to(w, RunState::ShowTargeting { range, item }),
            None => then_to(use_intended(w, item, None), RunState::PlayerTurn),
        },
        _ => goes_to(w, w.run_state),
    }
}

pub open spec fn drop_phase(w: WorldModel, key: Option<MenuKey>) -> Ticked {
    match item_menu_choice(w, key) {
        (ItemMenuResult::Cancel, _) => goes_to(w, RunState::AwaitingInput),
        (ItemMenuResult::Selected, Some(item)) => then_to(
            drop_intended(w, item),
            RunState::PlayerTurn,
        ),
        _ => goes_to(w, w.run_state),
    }
}

pub open spec fn targeting_phase(
    w: WorldModel,
    range: i32,
    item: Entity,
    mouse: Coord,
    left_click: bool,
) -> Ticked {
    match target_choice(w, range, mouse, left_click) {
        (ItemMenuResult::Cancel, _) => goes_to(w, RunState::AwaitingInput),
        (ItemMenuResult::Selected, target) => then_to(
            use_intended(w, item, target),
            RunState::PlayerTurn,
        ),
        _ => goes_to(w, w.run_state),
    }
}

pub open spec fn main_menu_phase(w: WorldModel, key: Option<MenuKey>) -> Ticked {
    match main_menu_choice(w.run_state, key) {
        MainMenuResult::NoSelection { selected } => goes_to(
            w,
            RunState::MainMenu { menu_selection: selected },
        ),
        MainMenuResult::Selected { selected } => match selected {
            MainMenuSelection::NewGame => goes_to(w, RunState::PreRun),
            MainMenuSelection::LoadGame => Ok((w, TickAction::LoadGame)),
            MainMenuSelection::Quit => Ok((w, TickAction::Quit)),
        },
    }
}

/// The part of a tick that depends on the phase.
pub open spec fn phase_run(
    w: WorldModel,
    command: Option<Command>,
    key: Option<MenuKey>,
    mouse: Coord,
    left_click: bool,
    paths: Seq<PathModel>,
    sights: Seq<Seq<Coord>>,
    blasts: Seq<Seq<Coord>>,
) -> Ticked {
    match w.run_state {
        RunState::PreRun => then_to(systems_run(w, sights, paths, blasts), RunState::AwaitingInput),
        RunState::AwaitingInput => match input_handled(w, command) {
            Ok((m, next)) => goes_to(m, next),
            Err(f) => Err(f),
        },
        RunState::PlayerTurn => then_to(
            systems_run(w, sights, paths, blasts),
            RunState::MonsterTurn,
        ),
        RunState::MonsterTurn => then_to(
            systems_run(w, sights, paths, blasts),
            RunState::AwaitingInput,
        ),
        RunState::MainMenu { .. } => main_menu_phase(w, key),
        RunState::SaveGame => Ok(
            (
                in_phase(w, RunState::MainMenu { menu_selection: MainMenuSelection::Quit }),
                TickAction::SaveGame,
            ),
        ),
        RunState::ShowInventory => inventory_phase(w, key),
        RunState::ShowDropItem => drop_phase(w, key),
        RunState::ShowTargeting { range, item } => targeting_phase(
            w,
            range,
            item,
            mouse,
            left_click,
        ),
        RunState::NextLevel => Ok((w, TickAction::NextLevel)),
    }
}

/// Whether a tick in this phase runs the systems.
pub open spec fn runs_systems(phase: RunState) -> bool {
    phase == RunState::PreRun || phase == RunState::PlayerTurn || phase == RunState::MonsterTurn
}

/// One tick: the step that the phase calls for, then the sweep of the
/// dead.
pub open spec fn ticked(
    w: WorldModel,
    command: Option<Command>,
    key: Option<MenuKey>,
    mouse: Coord,
    left_click: bool,
    paths: Seq<PathModel>,
    sights: Seq<Seq<Coord>>,
    blasts: Seq<Seq<Coord>>,
) -> Ticked {
    match phase_run(w, command, key, mouse, left_click, paths, sights, blasts) {
        Ok((m, action)) => Ok((dead_swept(m), action)),
        Err(f) => Err(f),
    }
}

/// Whether the entity comes along to the next level: the player does, and
/// so does whatever lies in the player's backpack.
pub open spec fn stays(e: EntityModel, player: Entity) -> bool {
    e.player is Some || e.in_backpack == Some(crate::components::InBackpack { owner: player })
}

/// Hit points after the rest between levels: at least half the maximum.
pub open spec fn rested(stats: CombatStats) -> CombatStats {
    CombatStats {
        hp: if stats.hp > trunc_half(stats.max_hp as int) {
            stats.hp
        } else {
            trunc_half(stats.max_hp as int) as i32
        },
        ..stats
    }
}

/// The player on arrival at `start`: standing there, with a field of view
/// to recompute, and rested.
pub open spec fn arrived(e: EntityModel, start: Coord) -> EntityModel {
    EntityModel {
        position: match e.position {
            Some(_) => Some(Position { x: start.x, y: start.y }),
            None => None,
        },
        viewshed: match e.viewshed {
            Some(v) => Some(ViewshedModel { dirty: true, ..v }),
            None => None,
        },
        combat_stats: match e.combat_stats {
            Some(s) => Some(rested(s)),
            None => None,
        },
        ..e
    }
}

/// Where the player starts on a level: the middle of its first room.
pub open spec fn start_of(map: MapModel) -> Coord {
    Coord { x: map.rooms[0].spec_center().0 as i32, y: map.rooms[0].spec_center().1 as i32 }
}

/// The world after the descent to the level `map`. Whoever does not come
/// along is gone. The player starts in the first room, and the systems
/// are due to run before the next input.
pub open spec fn descended(w: WorldModel, map: MapModel) -> WorldModel {
    WorldModel {
        entities: Seq::new(
            w.entities.len(),
            |j: int|
                if !stays(w.entities[j], w.player) {
                    EntityModel::blank(false)
                } else if j == w.player.id {
                    arrived(w.entities[j], start_of(map))
                } else {
                    w.entities[j]
                },
        ),
        map,
        player_position: start_of(map),
        run_state: RunState::PreRun,
        log: w.log.push(spec_descend_line()),
        ..w
    }
}

impl State {
    /// Moves the game to a new level of the same size as the current one.
    pub fn goto_next_level(&mut self, map: GameMap)
        requires
            old(self).ecs.wf(),
            map.wf(),
            map.width == old(self).ecs.map.width,
            map.height == old(self).ecs.map.height,
            map.rooms@.len() > 0,
            map@.in_bounds(start_of(map@).x as int, start_of(map@).y as int),
        ensures
            final(self).ecs@ == descended(old(self).ecs@, map@),
            final(self).ecs.wf(),
    {
        let center = map.rooms[0].center();
        let start = Coord { x: center.0, y: center.1 };
        let player = self.ecs.player;
        let n = self.ecs.entities.len();
        let mut i: usize = 0;
        while i < n
            invariant
                i <= n,
                n == self.ecs.entities@.len(),
                n == old(self).ecs.entities@.len(),
                player == old(self).ecs.player,
                self.ecs.player == old(self).ecs.player,
                self.ecs.map == old(self).ecs.map,
                self.ecs.log == old(self).ecs.log,
                self.ecs.pending_deletions == old(self).ecs.pending_deletions,
                forall|j: int|
                    0 <= j < i ==> self.ecs.entities@[j]@ == (if !stays(
                        old(self).ecs.entities@[j]@,
                        player,
                    ) {
                        EntityModel::blank(false)
                    } else if j == player.id {
                        arrived(old(self).ecs.entities@[j]@, start)
                    } else {
                        old(self).ecs.entities@[j]@
                    }),
                forall|j: int| i <= j < n ==> self.ecs.entities@[j] == old(self).ecs.entities@[j],
            decreases n - i,
        {
            let e = &self.ecs.entities[i];
            let keep = e.player.is_some() || match e.in_backpack {
                Some(b) => b.owner == player,
                None => false,
            };
            if !keep {
                self.ecs.entities[i] = Components::blank(false);
            } else if i == player.id {
                if self.ecs.entities[i].position.is_some() {
                    self.ecs.entities[i].position = Some(Position { x: start.x, y: start.y });
                }
                match &mut self.ecs.entities[i].viewshed {
                    Some(v) => {
                        v.dirty = true;
                    },
                    None => {},
                }
                match &mut self.ecs.entities[i].combat_stats {
                    Some(s) => {
                        let half = s.max_hp / 2;
                        if s.hp <= half {
                            s.hp = half;
                        }
                    },
                    None => {},
                }
            }
            i += 1;
        }
        self.ecs.map = map;
        self.ecs.player_position = start;
        self.ecs.run_state = RunState::PreRun;
        self.ecs.log(descend_line());
        proof {
            let m = descended(old(self).ecs@, map@);
            assert(self.ecs@.entities =~= m.entities);
            assert forall|j: int| 0 <= j < self.ecs@.entities.len() implies #[trigger]
                self.ecs@.slot_wf(j) by {
                assert(old(self).ecs@.slot_wf(j));
            }
        }
    }

    pub fn new(ecs: World) -> (state: State)
        ensures
            state.ecs == ecs,
    {
        State { ecs }
    }

    /// Brings the fields of view up to date and lists the routes that the
    /// monsters will want, if the coming tick is the monsters' turn. In any
    /// other phase nothing happens and nothing is listed.
    pub fn path_requests(&mut self) -> (requests: Vec<PathRequest>)
        requires
            old(self).ecs.wf(),
        ensures
            final(self).ecs.wf(),
            old(self).ecs.run_state != RunState::MonsterTurn ==> *final(self) == *old(self)
                && requests@.len() == 0,
            old(self).ecs.run_state == RunState::MonsterTurn ==> exists|sights: Seq<Seq<Coord>>|
                sights_fit(old(self).ecs@, sights) && final(self).ecs@
                    == #[trigger] visibility_system(old(self).ecs@, sights) && requests@
                    == path_requests(final(self).ecs@),
    {
        if self.ecs.run_state != RunState::MonsterTurn {
            return Vec::new();
        }
        let mut visibility = VisibilitySystem {  };
        visibility.run(&mut self.ecs);
        let monster_ai = MonsterAI {  };
        monster_ai.plan(&self.ecs)
    }

    /// Runs every system once, in order, and then carries out the
    /// deletions that were put off. The fields of view come from the
    /// field-of-view computation, which fixes their tiles up to their order.
    pub fn run_systems(&mut self, paths: &Vec<PathAnswer>) -> (r: Result<(), Fault>)
        requires
            old(self).ecs.wf(),
        ensures
            exists|sights: Seq<Seq<Coord>>, blasts: Seq<Seq<Coord>>|
                views_fit(old(self).ecs@, sights, path_models(paths@), blasts)
                    && match #[trigger] systems_run(
                    old(self).ecs@,
                    sights,
                    path_models(paths@),
                    blasts,
                ) {
                    Ok(m) => r is Ok && final(self).ecs@ == m,
                    Err(f) => r == Err::<(), Fault>(f),
                },
            final(self).ecs.wf(),
    {
        let ghost start = self.ecs@;
        let ghost routes = path_models(paths@);
        let mut visibility = VisibilitySystem {  };
        visibility.run(&mut self.ecs);
        let ghost sights = choose|sights: Seq<Seq<Coord>>|
            sights_fit(start, sights) && self.ecs@ == #[trigger] visibility_system(start, sights);
        let ghost none = Seq::<Seq<Coord>>::empty();
        let mut monster_ai = MonsterAI {  };
        monster_ai.run(&mut self.ecs, paths);
        let mut map_indexing = MapIndexingSystem {  };
        map_indexing.run(&mut self.ecs);
        let mut melee_combat = MeleeCombatSystem {  };
        match melee_combat.run(&mut self.ecs) {
            Ok(()) => {},
            Err(f) => {
                proof {
                    assert(views_fit(start, sights, routes, none));
                    assert(systems_run(start, sights, routes, none) == Err::<WorldModel, Fault>(f));
                }
                return Err(f);
            },
        }
        let mut damage = DamageSystem {  };
        damage.run(&mut self.ecs);
        let mut item_collection = ItemCollectionSystem {  };
        match item_collection.run(&mut self.ecs) {
            Ok(()) => {},
            Err(f) => {
                proof {
                    assert(views_fit(start, sights, routes, none));
                    assert(systems_run(start, sights, routes, none) == Err::<WorldModel, Fault>(f));
                }
                return Err(f);
            },
        }
        let ghost collected = self.ecs@;
        proof {
            assert(before_item_use(start, sights, routes) == Ok::<WorldModel, Fault>(collected));
        }
        let mut item_use = ItemUseSystem {  };
        let used = item_use.run(&mut self.ecs);
        let ghost blasts = choose|blasts: Seq<Seq<Coord>>|
            blasts_fit(collected, blasts) && match #[trigger] item_use_system(collected, blasts) {
                Ok(m) => used is Ok && self.ecs@ == m,
                Err(f) => used == Err::<(), Fault>(f),
            };
        proof {
            assert(views_fit(start, sights, routes, blasts));
        }
        match used {
            Ok(()) => {},
            Err(f) => {
                proof {
                    assert(systems_run(start, sights, routes, blasts) == Err::<WorldModel, Fault>(
                        f,
                    ));
                }
                return Err(f);
            },
        }
        let mut item_drop = ItemDropSystem {  };
        match item_drop.run(&mut self.ecs) {
            Ok(()) => {},
            Err(f) => {
                proof {
                    assert(systems_run(start, sights, routes, blasts) == Err::<WorldModel, Fault>(
                        f,
                    ));
                }
                return Err(f);
            },
        }
        self.ecs.maintain();
        proof {
            assert(systems_run(start, sights, routes, blasts) == Ok::<WorldModel, Fault>(
                self.ecs@,
            ));
        }
        Ok(())
    }

    fn set_phase(&mut self, phase: RunState)
        ensures
            final(self).ecs@ == in_phase(old(self).ecs@, phase),
            old(self).ecs.wf() ==> final(self).ecs.wf(),
    {
        self.ecs.run_state = phase;
        proof {
            assert(self.ecs@.entities =~= old(self).ecs@.entities);
            if old(self).ecs.wf() {
                assert forall|i: int| 0 <= i < self.ecs@.entities.len() implies #[trigger]
                    self.ecs@.slot_wf(i) by {
                    assert(old(self).ecs@.slot_wf(i));
                }
            }
        }
    }

    fn intend_use(&mut self, item: Entity, target: Option<Coord>) -> (r: Result<(), Fault>)
        requires
            old(self).ecs.wf(),
            target matches Some(t) ==> old(self).ecs@.map.in_bounds(t.x as int, t.y as int),
        ensures
            match use_intended(old(self).ecs@, item, target) {
                Ok(m) => r is Ok && final(self).ecs@ == m,
                Err(f) => r == Err::<(), Fault>(f),
            },
            final(self).ecs.wf(),
    {
        let player = self.ecs.player;
        if !self.ecs.is_alive(player) {
            return Err(Fault::NoSuchEntity);
        }
        self.ecs.entities[player.id].wants_to_use_item = Some(WantsToUseItem { item, target });
        proof {
            let m = use_intended(old(self).ecs@, item, target).unwrap();
            assert(self.ecs@.entities =~= m.entities);
            assert forall|i: int| 0 <= i < self.ecs@.entities.len() implies #[trigger]
                self.ecs@.slot_wf(i) by {
                assert(old(self).ecs@.slot_wf(i));
            }
        }
        Ok(())
    }

    fn intend_drop(&mut self, item: Entity) -> (r: Result<(), Fault>)
        requires
            old(self).ecs.wf(),
        ensures
            match drop_intended(old(self).ecs@, item) {
                Ok(m) => r is Ok && final(self).ecs@ == m,
                Err(f) => r == Err::<(), Fault>(f),
            },
            final(self).ecs.wf(),
    {
        let player = self.ecs.player;
        if !self.ecs.is_alive(player) {
            return Err(Fault::NoSuchEntity);
        }
        self.ecs.entities[player.id].wants_to_drop_item = Some(WantsToDropItem { item });
        proof {
            let m = drop_intended(old(self).ecs@, item).unwrap();
            assert(self.ecs@.entities =~= m.entities);
            assert forall|i: int| 0 <= i < self.ecs@.entities.len() implies #[trigger]
                self.ecs@.slot_wf(i) by {
                assert(old(self).ecs@.slot_wf(i));
            }
        }
        Ok(())
    }

    fn menu_phase(&mut self, input: &TickInput) -> (r: Result<TickAction, Fault>)
        requires
            old(self).ecs.wf(),
            !runs_systems(old(self).ecs.run_state),
        ensures
            forall|sights: Seq<Seq<Coord>>, blasts: Seq<Seq<Coord>>|
                match #[trigger] phase_run(
                    old(self).ecs@,
                    input.command,
                    input.key,
                    input.mouse,
                    input.left_click,
                    path_models(input.paths@),
                    sights,
                    blasts,
                ) {
                    Ok((m, action)) => r == Ok::<TickAction, Fault>(action) && final(self).ecs@
                        == m,
                    Err(f) => r == Err::<TickAction, Fault>(f),
                },
            final(self).ecs.wf(),
    {
        let phase = self.ecs.run_state;
        match phase {
            RunState::AwaitingInput => {
                match player_input(self, input.command) {
                    Ok(next) => {
                        self.set_phase(next);
                        Ok(TickAction::Continue)
                    },
                    Err(f) => Err(f),
                }
            },
            RunState::MainMenu { .. } => {
                match main_menu(self, input.key) {
                    MainMenuResult::NoSelection { selected } => {
                        self.set_phase(RunState::MainMenu { menu_selection: selected });
                        Ok(TickAction::Continue)
                    },
                    MainMenuResult::Selected { selected } => match selected {
                        MainMenuSelection::NewGame => {
                            self.set_phase(RunState::PreRun);
                            Ok(TickAction::Continue)
                        },
                        MainMenuSelection::LoadGame => Ok(TickAction::LoadGame),
                        MainMenuSelection::Quit => Ok(TickAction::Quit),
                    },
                }
            },
            RunState::SaveGame => {
                self.set_phase(RunState::MainMenu { menu_selection: MainMenuSelection::Quit });
                Ok(TickAction::SaveGame)
            },
            RunState::ShowInventory => {
                match show_inventory(self, input.key) {
                    (ItemMenuResult::Cancel, _) => {
                        self.set_phase(RunState::AwaitingInput);
                        Ok(TickAction::Continue)
                    },
                    (ItemMenuResult::Selected, Some(item)) => {
                        let ranged = if item.id < self.ecs.entities.len() {
                            self.ecs.entities[item.id].ranged
                        } else {
                            None
                        };
                        match ranged {
                            Some(r) => {
                                self.set_phase(RunState::ShowTargeting { range: r.range, item });
                                Ok(TickAction::Continue)
                            },
                            None => match self.intend_use(item, None) {
                                Ok(()) => {
                                    self.set_phase(RunState::PlayerTurn);
                                    Ok(TickAction::Continue)
                                },
                                Err(f) => Err(f),
                            },
                        }
                    },
                    _ => {
                        self.set_phase(phase);
                        Ok(TickAction::Continue)
                    },
                }
            },
            RunState::ShowDropItem => {
                match drop_item_menu(self, input.key) {
                    (ItemMenuResult::Cancel, _) => {
                        self.set_phase(RunState::AwaitingInput);
                        Ok(TickAction::Continue)
                    },
                    (ItemMenuResult::Selected, Some(item)) => match self.intend_drop(item) {
                        Ok(()) => {
                            self.set_phase(RunState::PlayerTurn);
                            Ok(TickAction::Continue)
                        },
                        Err(f) => Err(f),
                    },
                    _ => {
                        self.set_phase(phase);
                        Ok(TickAction::Continue)
                    },
                }
            },
            RunState::ShowTargeting { range, item } => {
                match ranged_target(self, range, input.mouse, input.left_click) {
                    (ItemMenuResult::Cancel, _) => {
                        self.set_phase(RunState::AwaitingInput);
                        Ok(TickAction::Continue)
                    },
                    (ItemMenuResult::Selected, target) => match self.intend_use(item, target) {
                        Ok(()) => {
                            self.set_phase(RunState::PlayerTurn);
                            Ok(TickAction::Continue)
                        },
                        Err(f) => Err(f),
                    },
                    _ => {
                        self.set_phase(phase);
                        Ok(TickAction::Continue)
                    },
                }
            },
            _ => Ok(TickAction::NextLevel),
        }
    }

    /// Advances the game by one tick: what the current phase calls for,
    /// and then the removal of the dead. The result says what is left for
    /// the caller to do.
    pub fn tick(&mut self, input: &TickInput) -> (r: Result<TickAction, Fault>)
        requires
            old(self).ecs.wf(),
        ensures
            exists|sights: Seq<Seq<Coord>>, blasts: Seq<Seq<Coord>>|
                (runs_systems(old(self).ecs.run_state) ==> views_fit(
                    old(self).ecs@,
                    sights,
                    path_models(input.paths@),
                    blasts,
                )) && match #[trigger] ticked(
                    old(self).ecs@,
                    input.command,
                    input.key,
                    input.mouse,
                    input.left_click,
                    path_models(input.paths@),
                    sights,
                    blasts,
                ) {
                    Ok((m, action)) => r == Ok::<TickAction, Fault>(action) && final(self).ecs@
                        == m,
                    Err(f) => r == Err::<TickAction, Fault>(f),
                },
            final(self).ecs.wf(),
    {
        let ghost start = self.ecs@;
        let ghost routes = path_models(input.paths@);
        let phase = self.ecs.run_state;
        let after = match phase {
            RunState::PreRun => Some(RunState::AwaitingInput),
            RunState::PlayerTurn => Some(RunState::MonsterTurn),
            RunState::MonsterTurn => Some(RunState::AwaitingInput),
            _ => None,
        };
        match after {
            Some(next) => {
                let ran = self.run_systems(&input.paths);
                let ghost (sights, blasts) = choose|sights: Seq<Seq<Coord>>, blasts: Seq<Seq<Coord>>|
                    views_fit(start, sights, routes, blasts) && match #[trigger] systems_run(
                        start,
                        sights,
                        routes,
                        blasts,
                    ) {
                        Ok(m) => ran is Ok && self.ecs@ == m,
                        Err(f) => ran == Err::<(), Fault>(f),
                    };
                match ran {
                    Ok(()) => {
                        self.set_phase(next);
                        delete_the_dead(&mut self.ecs);
                        proof {
                            assert(ticked(
                                start,
                                input.command,
                                input.key,
                                input.mouse,
                                input.left_click,
                                routes,
                                sights,
                                blasts,
                            ) == Ok::<(WorldModel, TickAction), Fault>(
                                (self.ecs@, TickAction::Continue),
                            ));
                        }
                        Ok(TickAction::Continue)
                    },
                    Err(f) => {
                        proof {
                            assert(ticked(
                                start,
                                input.command,
                                input.key,
                                input.mouse,
                                input.left_click,
                                routes,
                                sights,
                                blasts,
                            ) == Err::<(WorldModel, TickAction), Fault>(f));
                        }
                        Err(f)
                    },
                }
            },
            None => {
                let ghost none = Seq::<Seq<Coord>>::empty();
                let done = self.menu_phase(input);
                match done {
                    Ok(action) => {
                        delete_the_dead(&mut self.ecs);
                        proof {
                            assert(ticked(
                                start,
                                input.command,
                                input.key,
                                input.mouse,
                                input.left_click,
                                routes,
                                none,
                                none,
                            ) == Ok::<(WorldModel, TickAction), Fault>((self.ecs@, action)));
                        }
                        Ok(action)
                    },
                    Err(f) => {
                        proof {
                            assert(ticked(
                                start,
                                input.command,
                                input.key,
                                input.mouse,
                                input.left_click,
                                routes,
                                none,
                                none,
                            ) == Err::<(WorldModel, TickAction), Fault>(f));
                        }
                        Err(f)
                    },
                }
            },
        }
    }
}

} // verus!
