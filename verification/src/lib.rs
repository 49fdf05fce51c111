//! A turn-based dungeon crawl: a generated tile map, field of view, monsters
//! that walk toward the player along shortest paths, melee combat and the
//! turn state machine that sequences them.

pub mod geometry;
pub mod components;
pub mod map;
pub mod rng;
pub mod generator;
pub mod world;
pub mod fov;
pub mod visibility_system;
pub mod map_indexing_system;
pub mod pathfinding;
pub mod state;
pub mod monster_ai_system;
pub mod melee_combat_system;
pub mod damage_system;
pub mod player;
pub mod path_laws;
pub mod spawner;
pub mod scene;
