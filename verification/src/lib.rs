//! Core of a turn-based dungeon crawler: map generation, combat,
//! monster behaviour and the item-effect pipeline, all verified.
//!
//! Rendering, input polling and save files live outside this crate;
//! the library exchanges plain values with that layer (visibility
//! flags, player intents, targeting results).

pub mod ai;
pub mod game;
pub mod geom;
pub mod items;
pub mod mapgen;
pub mod messages;
pub mod object;
pub mod rng;
pub mod session;
pub mod tile;
