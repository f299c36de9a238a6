//! Verified game engines: a 3x3 tic-tac-toe board with a minimax/alpha-beta
//! search, a minesweeper field with deferred mine generation and flood-fill
//! reveal, and a small locale lookup.

pub mod fluent;
pub mod minesweeper;
pub mod points;
pub mod rng;
pub mod tictactoe;
