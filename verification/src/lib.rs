//! Game logic of a small roguelike: map generation, entity bookkeeping and
//! the turn-by-turn systems (visibility, monster AI, map indexing, melee and
//! damage), each stated with its contract and proved with Verus.
pub mod components;
pub mod damage_system;
pub mod map;
pub mod map_indexing_system;
pub mod melee_combat_system;
pub mod monster_ai_system;
pub mod player;
pub mod random;
pub mod rect;
pub mod spawner;
pub mod state;
pub mod visibility_system;
pub mod world;
