//! Deterministic food spawning for Battlesnake boards, driven by a MINSTD
//! pseudo-random generator, with machine-checked contracts.

pub mod minstd;
pub mod board;
pub mod food_spawn;
pub mod game_step;
