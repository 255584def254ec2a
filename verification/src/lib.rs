//! A turn-based grid roguelike core: map generation, field-of-view,
//! movement conflict resolution, melee combat, and a staged per-tick
//! scheduler over a small entity store.
//!
//! Every game rule lives here with a contract; randomness comes from
//! bracket-random's `RandomNumberGenerator`, reached through a small
//! trusted wrapper, and the terminal layer stays outside the library.

pub mod ai;
pub mod combat;
pub mod drawable;
pub mod components;
pub mod game_state;
pub mod keyboard;
pub mod map;
pub mod messages;
pub mod movement;
pub mod mapgen;
pub mod rng;
pub mod text;
pub mod visibility;
pub mod world;
