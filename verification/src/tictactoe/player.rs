//! Move-selection strategies: first-empty-cell (standing in for a human),
//! uniform random, and the minimax searcher with or without pruning.

use vstd::prelude::*;
use crate::rng::choose_index;
use crate::tictactoe::board::{Board, Index, Piece, lemma_occupied_empty_count};
use crate::tictactoe::minimax::{child_value, game_value, minimax_search, spec_terminal};

verus! {

/// The lowercase form of a string, named after `str::to_lowercase`.
pub uninterp spec fn lower_of(s: Seq<char>) -> Seq<char>;

/// Relies on `str::to_lowercase`: the result is a function of the
/// characters alone.
#[verifier::external_body]
fn lowercase(s: &str) -> (r: String)
    ensures
        r@ == lower_of(s@),
{
    s.to_lowercase()
}

/// A move-selection strategy: given a board and the piece to move as,
/// pick an empty cell; the board itself is never touched.
pub trait Player {
    fn play(&self, board: &Board, piece: Piece) -> (r: Index)
        requires
            board.wf(),
            piece is X || piece is O,
            !spec_terminal(board@, piece),
        ensures
            r < 9,
            board@[r as int] is Empty,
    ;
}

/// Stands in for the human participant: real input is the host's business,
/// so this strategy deterministically takes the first empty cell.
#[derive(PartialEq, Eq, Structural, Clone, Copy, Debug)]
pub struct HumanPlayer;

impl HumanPlayer {
    pub fn name(&self) -> (r: String)
        ensures
            r@ == "Human player"@,
    {
        "Human player".to_owned()
    }

    /// The first empty cell of a board that has one.
    #[verifier::loop_isolation(false)]
    pub fn first_empty(board: &Board) -> (r: Index)
        requires
            board.wf(),
            !spec_terminal(board@, Piece::X),
        ensures
            r < 9,
            board@[r as int] is Empty,
            forall|j: int| 0 <= j < r ==> !(board@[j] is Empty),
    {
        proof {
            board.lemma_wf_len();
        }
        let mut i: usize = 0;
        while i < 9
            invariant
                i <= 9,
                forall|j: int| 0 <= j < i ==> !(board@[j] is Empty),
            decreases 9 - i,
        {
            if board.cell_is_empty(i) {
                return i;
            }
            i = i + 1;
        }
        proof {
            lemma_occupied_empty_count(board@, 9);
        }
        unreached()
    }
}

impl Player for HumanPlayer {
    fn play(&self, board: &Board, _piece: Piece) -> (r: Index)
        ensures
            forall|j: int| 0 <= j < r ==> !(board@[j] is Empty),
    {
        HumanPlayer::first_empty(board)
    }
}

/// Picks uniformly among the empty cells.
#[derive(PartialEq, Eq, Structural, Clone, Copy, Debug)]
pub struct RandomPlayer;

impl RandomPlayer {
    pub fn name(&self) -> (r: String)
        ensures
            r@ == "Random player"@,
    {
        "Random player".to_owned()
    }
}

impl Player for RandomPlayer {
    #[verifier::loop_isolation(false)]
    fn play(&self, board: &Board, _piece: Piece) -> (r: Index) {
        proof {
            board.lemma_wf_len();
        }
        let mut empties: Vec<usize> = Vec::new();
        let mut i: usize = 0;
        while i < 9
            invariant
                i <= 9,
                forall|j: int|
                    0 <= j < empties@.len() ==> (#[trigger] empties@[j]) < 9 && board@[empties@[j] as int] is Empty,
                empties@.len() == 0 ==> forall|c: int| 0 <= c < i ==> !(board@[c] is Empty),
            decreases 9 - i,
        {
            if board.cell_is_empty(i) {
                empties.push(i);
            }
            i = i + 1;
        }
        proof {
            if empties@.len() == 0 {
                lemma_occupied_empty_count(board@, 9);
                assert(false);
            }
        }
        let r = choose_index(&empties);
        proof {
            let j = choose|j: int| 0 <= j < empties@.len() && empties@[j] == r;
            assert(empties@[j] < 9 && board@[empties@[j] as int] is Empty);
        }
        r
    }
}

/// The game-tree searcher; `alpha_beta` switches pruning on.
#[derive(PartialEq, Eq, Structural, Clone, Copy, Debug)]
pub struct MinimaxPlayer {
    alpha_beta: bool,
}

impl MinimaxPlayer {
    /// Whether this searcher prunes with an alpha-beta window.
    pub closed spec fn spec_prunes(self) -> bool {
        self.alpha_beta
    }

    pub fn new(alpha_beta: bool) -> (r: Self)
        ensures
            r.spec_prunes() == alpha_beta,
    {
        MinimaxPlayer { alpha_beta }
    }

    pub fn name(&self) -> (r: String)
        ensures
            r@ == "Minimax player"@,
    {
        "Minimax player".to_owned()
    }
}

impl Player for MinimaxPlayer {
    fn play(&self, board: &Board, piece: Piece) -> (r: Index)
        ensures
            child_value(board@, piece, true, r as int) == game_value(board@, piece, true),
    {
        let stepped = minimax_search(board, piece, self.alpha_beta);
        stepped.0
    }
}

/// A strategy as selected at game creation: one closed set of variants,
/// the minimax one remembering whether it prunes.
#[derive(PartialEq, Eq, Structural, Clone, Copy, Debug)]
pub enum PlayerKind {
    Human,
    Random,
    Minimax(bool),
}

impl PlayerKind {
    /// Plays a move with the selected strategy: the human stand-in takes
    /// the first empty cell, the searchers take a cell of exactly the
    /// position's game-theoretic value, and the random strategy some
    /// empty cell.
    pub fn play(&self, board: &Board, piece: Piece) -> (r: Index)
        requires
            board.wf(),
            piece is X || piece is O,
            !spec_terminal(board@, piece),
        ensures
            r < 9,
            board@[r as int] is Empty,
            self is Human ==> (forall|j: int| 0 <= j < r ==> !(board@[j] is Empty)),
            self is Minimax ==> child_value(board@, piece, true, r as int) == game_value(
                board@,
                piece,
                true,
            ),
    {
        match self {
            PlayerKind::Human => HumanPlayer::first_empty(board),
            PlayerKind::Random => RandomPlayer.play(board, piece),
            PlayerKind::Minimax(ab) => minimax_search(board, piece, *ab).0,
        }
    }
}

/// Which strategy a selection string names, after lowercasing.
pub open spec fn spec_player_for(l: Seq<char>) -> Option<PlayerKind> {
    if l == "human"@ || l == "h"@ {
        Some(PlayerKind::Human)
    } else if l == "minimax"@ || l == "m"@ {
        Some(PlayerKind::Minimax(false))
    } else if l == "alphabeta"@ || l == "a"@ {
        Some(PlayerKind::Minimax(true))
    } else if l == "random"@ || l == "r"@ {
        Some(PlayerKind::Random)
    } else {
        None
    }
}

/// Selects a strategy by name, case-insensitively: "human"/"h",
/// "minimax"/"m", "alphabeta"/"a" or "random"/"r"; anything else is
/// rejected.
pub fn choose_player(c: &str) -> (r: Option<PlayerKind>)
    ensures
        r == spec_player_for(lower_of(c@)),
{
    let l = lowercase(c);
    if l == "human".to_owned() || l == "h".to_owned() {
        Some(PlayerKind::Human)
    } else if l == "minimax".to_owned() || l == "m".to_owned() {
        Some(PlayerKind::Minimax(false))
    } else if l == "alphabeta".to_owned() || l == "a".to_owned() {
        Some(PlayerKind::Minimax(true))
    } else if l == "random".to_owned() || l == "r".to_owned() {
        Some(PlayerKind::Random)
    } else {
        None
    }
}

} // verus!
