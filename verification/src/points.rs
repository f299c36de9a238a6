//! The reward tiers a tic-tac-toe game pays out, fixed by its difficulty.

use vstd::prelude::*;
use crate::tictactoe::Difficulty;

verus! {

/// The (experience, currency) rewards for a win, a draw and a loss.
#[derive(PartialEq, Eq, Clone, Copy, Debug)]
pub struct Points {
    pub win: (i8, i8),
    pub draw: (i8, i8),
    pub loss: (i8, i8),
}

impl Points {
    /// The reward table of a difficulty.
    pub open spec fn spec_for(difficulty: Difficulty) -> Points {
        match difficulty {
            Difficulty::Easy | Difficulty::Random => Points {
                win: (1, 1),
                draw: (1, 0),
                loss: (0, 0),
            },
            Difficulty::Medium => Points { win: (2, 2), draw: (2, 0), loss: (0, 0) },
            Difficulty::Hard => Points { win: (2, 3), draw: (2, 1), loss: (0, 0) },
        }
    }

    pub fn new(difficulty: &Difficulty) -> (r: Self)
        ensures
            r == Points::spec_for(*difficulty),
    {
        match difficulty {
            Difficulty::Easy | Difficulty::Random => Points {
                win: (1, 1),
                draw: (1, 0),
                loss: (0, 0),
            },
            Difficulty::Medium => Points { win: (2, 2), draw: (2, 0), loss: (0, 0) },
            Difficulty::Hard => Points { win: (2, 3), draw: (2, 1), loss: (0, 0) },
        }
    }
}

} // verus!
