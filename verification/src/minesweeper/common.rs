//! Small shared minesweeper types.

use vstd::prelude::*;

verus! {

/// A one-step move of the selection cursor.
#[derive(PartialEq, Eq, Structural, Clone, Copy, Debug)]
pub enum MoveDestination {
    Up,
    Down,
    Left,
    Right,
}

} // verus!
