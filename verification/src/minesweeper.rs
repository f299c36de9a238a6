//! Minesweeper: the cell grid with deferred mine generation, and the game
//! that drives it.

pub mod common;
pub mod field;
pub mod game;
