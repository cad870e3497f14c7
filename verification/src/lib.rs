//! Core of a turn-based tile-grid dungeon simulation: procedural dungeon
//! generation with guaranteed connectivity, collision-aware movement, melee
//! resolution, visibility/exploration tracking, and a turn scheduler.
//!
//! Rendering, keyboard polling and the field-of-view oracle are outside this
//! crate; the library exposes plain queries and takes the oracle's output as
//! an argument.

pub mod combat;
pub mod grid;
pub mod mapgen;
pub mod motion;
pub mod object;
pub mod reach;
pub mod rect;
pub mod rng;
pub mod tile;
pub mod turn;
