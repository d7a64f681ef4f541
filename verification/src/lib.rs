//! A turn-based dungeon crawl as a verified simulation.
//!
//! The world is a table of entities, each with the components it has, and a
//! level of tiles. A fixed pass over the systems advances it by one turn:
//! visibility, monster AI, map indexing, melee, damage, item collection, item
//! use and item drop, in that order. `state::State::tick` drives the pass
//! from the phase of the turn cycle and from what the outside world hands in:
//! a command, a key, the mouse, routes for the monsters.
//!
//! Every system is specified as a function on the mathematical content of
//! the world, and its code is proved to compute that function. What cannot
//! be proved here is marked: the field of view, random numbers, glyph codes
//! and the decimal digits of a number come from outside and are taken on
//! trust, each behind one small function.

pub mod components;
pub mod damage_system;
pub mod fov;
pub mod game_log;
pub mod geometry;
pub mod gui;
pub mod inventory_system;
pub mod item_use_system;
pub mod map;
pub mod map_builder;
pub mod map_indexing_system;
pub mod melee_combat_system;
pub mod monster_ai_system;
pub mod player;
pub mod random;
pub mod random_table;
pub mod render;
pub mod save_load_system;
pub mod spawner;
pub mod state;
pub mod text;
pub mod theorems;
pub mod visibility_system;
pub mod world;
