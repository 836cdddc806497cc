//! A tile-based boulder-and-diamond puzzle engine: grid geometry, the level
//! grid, and the per-turn simulation that moves boulders, monsters and the
//! player.
pub mod game;
pub mod laws;
pub mod mapping;
pub mod pos;
pub mod rect;
pub mod util;
