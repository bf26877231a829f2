//! Game logic of a side-scrolling flappy-bird game.
//!
//! Every length, position and speed is a fixed-point integer counted in
//! tenths of a pixel: all the game's constants are whole tenths, so the
//! arithmetic below is exact.

pub mod geometry;
pub mod player;
pub mod pipes;
pub mod game;
mod chance;

pub use geometry::{Position, Rect};
pub use player::Player;
pub use game::GameState;
