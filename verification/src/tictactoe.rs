//! Tic-tac-toe: board, players, search, and the game that ties them
//! together against a human participant.

pub mod board;
pub mod minimax;
pub mod player;

use vstd::prelude::*;
use rand::rngs::StdRng;
use crate::points::Points;
use crate::rng::{pick_below, ratio_coin};
use crate::tictactoe::board::{Board, Index, Offset, Piece, full, line_won, lemma_no_empty_count};
use crate::tictactoe::minimax::spec_terminal;
use crate::tictactoe::player::PlayerKind;

verus! {

/// How hard the computer opponent plays; decides the pairing, who moves
/// first, and the reward tier.
#[derive(PartialEq, Eq, Structural, Clone, Copy, Debug)]
pub enum Difficulty {
    Easy,
    Medium,
    Hard,
    Random,
}

impl Difficulty {
    /// The difficulty a numeric code names: 1 to 4; anything else is
    /// rejected, since the code comes from outside input.
    pub fn extract(obj: i32) -> (r: Result<Self, String>)
        ensures
            obj == 1 ==> r == Ok::<Difficulty, String>(Difficulty::Easy),
            obj == 2 ==> r == Ok::<Difficulty, String>(Difficulty::Medium),
            obj == 3 ==> r == Ok::<Difficulty, String>(Difficulty::Hard),
            obj == 4 ==> r == Ok::<Difficulty, String>(Difficulty::Random),
            (obj < 1 || obj > 4) ==> (r matches Err(e) && e@ == "Invalid difficulty value"@),
    {
        match obj {
            1 => Ok(Difficulty::Easy),
            2 => Ok(Difficulty::Medium),
            3 => Ok(Difficulty::Hard),
            4 => Ok(Difficulty::Random),
            _ => Err("Invalid difficulty value".to_owned()),
        }
    }
}

/// The empty board.
pub open spec fn empty_board() -> Seq<Piece> {
    Seq::new(9, |i: int| Piece::Empty)
}

/// One tic-tac-toe playthrough: a human against the computer opponent the
/// difficulty selected.
#[derive(Debug)]
pub struct Game {
    board: Board,
    player_x: PlayerKind,
    player_o: PlayerKind,
    human_first: bool,
    points: Points,
}

impl Game {
    /// The cells of the game's board.
    pub closed spec fn board_view(self) -> Seq<Piece> {
        self.board@
    }

    /// Whether the human moves first (and so plays X).
    pub closed spec fn spec_human_first(self) -> bool {
        self.human_first
    }

    pub closed spec fn spec_player_x(self) -> PlayerKind {
        self.player_x
    }

    pub closed spec fn spec_player_o(self) -> PlayerKind {
        self.player_o
    }

    pub closed spec fn spec_points(self) -> Points {
        self.points
    }

    /// The piece the human plays.
    pub open spec fn human_piece(self) -> Piece {
        if self.spec_human_first() {
            Piece::X
        } else {
            Piece::O
        }
    }

    /// The game's bookkeeping is sound: the board is, and the human holds
    /// the side that the move order says.
    pub closed spec fn wf(self) -> bool {
        &&& self.board.wf()
        &&& (if self.human_first {
            self.player_x is Human
        } else {
            self.player_o is Human
        })
    }

    /// A sound game has a sound nine-cell board.
    pub proof fn lemma_wf_board(&self)
        requires
            self.wf(),
        ensures
            self.board_view().len() == 9,
    {
        self.board.lemma_wf_len();
    }

    /// Builds the game a difficulty asks for, drawing the coin flips from
    /// `rng`. When the computer moves first, its opening move is already
    /// placed when the game is handed back.
    pub fn new(difficulty: i32, rng: StdRng) -> (r: Result<Game, String>)
        ensures
            (1 <= difficulty <= 4) == (r is Ok),
            r matches Ok(g) ==> ({
                &&& g.wf()
                &&& g.spec_points() == Points::spec_for(
                    Difficulty::spec_for_code(difficulty as int),
                )
                &&& difficulty == 1 ==> g.spec_player_x() is Human && g.spec_player_o() is Random
                    && g.spec_human_first()
                &&& difficulty == 2 ==> ((g.spec_player_x() is Human && g.spec_player_o()
                    == PlayerKind::Minimax(false) && g.spec_human_first()) || (g.spec_player_x()
                    == PlayerKind::Minimax(false) && g.spec_player_o() is Human
                    && !g.spec_human_first()))
                &&& difficulty == 3 ==> g.spec_player_x() == PlayerKind::Minimax(true)
                    && g.spec_player_o() is Human && !g.spec_human_first()
                &&& difficulty == 4 ==> ((g.spec_human_first() && g.spec_player_x() is Human) || (
                !g.spec_human_first() && g.spec_player_o() is Human))
                &&& g.spec_human_first() ==> g.board_view() == empty_board()
                &&& !g.spec_human_first() ==> (exists|i: int|
                    0 <= i < 9 && g.board_view() == empty_board().update(i, Piece::X))
            }),
    {
        let mut rng = rng;
        let difficulty = match Difficulty::extract(difficulty) {
            Ok(d) => d,
            Err(e) => {
                return Err(e);
            },
        };
        let points = Points::new(&difficulty);
        let x: PlayerKind;
        let o: PlayerKind;
        let mut human_first: bool = true;
        match difficulty {
            Difficulty::Easy => {
                x = PlayerKind::Human;
                o = PlayerKind::Random;
            },
            Difficulty::Medium => {
                if ratio_coin(&mut rng, 1, 2) {
                    x = PlayerKind::Human;
                    o = PlayerKind::Minimax(false);
                } else {
                    x = PlayerKind::Minimax(false);
                    o = PlayerKind::Human;
                    human_first = false;
                }
            },
            Difficulty::Hard => {
                x = PlayerKind::Minimax(true);
                o = PlayerKind::Human;
                human_first = false;
            },
            Difficulty::Random => {
                let comp_mode = pick_below(&mut rng, 3);
                let comp: PlayerKind = if comp_mode == 0 {
                    PlayerKind::Minimax(false)
                } else if comp_mode == 1 {
                    PlayerKind::Minimax(true)
                } else {
                    PlayerKind::Random
                };
                let (num, den): (u32, u32) = if comp_mode == 0 {
                    (1, 2)
                } else if comp_mode == 1 {
                    (1, 4)
                } else {
                    (3, 4)
                };
                if ratio_coin(&mut rng, num, den) {
                    x = comp;
                    o = PlayerKind::Human;
                    human_first = false;
                } else {
                    x = PlayerKind::Human;
                    o = comp;
                }
            },
        }
        let mut game = Game { board: Board::new(), player_x: x, player_o: o, human_first, points };
        if !human_first {
            proof {
                lemma_no_empty_count(game.board@, 9);
            }
            let action = game.player_x.play(&game.board, Piece::X);
            game.board.place_piece(action, Piece::X);
            proof {
                assert(game.board@ =~= empty_board().update(action as int, Piece::X));
            }
        } else {
            proof {
                assert(game.board@ =~= empty_board());
            }
        }
        Ok(game)
    }

    /// The cells, in row-major order.
    pub fn board(&self) -> (r: Vec<Piece>)
        ensures
            r@ == self.board_view(),
    {
        self.board.board()
    }

    /// Replaces the board, keeping players and rewards; lets a caller
    /// resume from a known position.
    pub fn set_board(&mut self, board: Board)
        requires
            board.wf(),
        ensures
            final(self).board_view() == board@,
            final(self).spec_human_first() == old(self).spec_human_first(),
            final(self).spec_player_x() == old(self).spec_player_x(),
            final(self).spec_player_o() == old(self).spec_player_o(),
            final(self).spec_points() == old(self).spec_points(),
            old(self).wf() ==> final(self).wf(),
    {
        self.board = board;
    }

    pub fn human_first(&self) -> (r: bool)
        ensures
            r == self.spec_human_first(),
    {
        self.human_first
    }

    /// Plays one round: places the human's piece on the given empty cell,
    /// and unless that ends the game — a win for the human, or a full
    /// board — lets the computer answer and tells the caller its cell.
    pub fn play(&mut self, index: Index) -> (r: Option<Index>)
        requires
            old(self).wf(),
            index < 9,
            old(self).board_view()[index as int] is Empty,
            !line_won(old(self).board_view(), Piece::X),
            !line_won(old(self).board_view(), Piece::O),
        ensures
            final(self).wf(),
            final(self).spec_human_first() == old(self).spec_human_first(),
            final(self).spec_points() == old(self).spec_points(),
            ({
                let hp = old(self).human_piece();
                let s1 = old(self).board_view().update(index as int, hp);
                &&& (r is None ==> final(self).board_view() == s1 && (line_won(s1, hp) || full(
                    s1,
                )))
                &&& (r matches Some(ci) ==> ci < 9 && s1[ci as int] is Empty
                    && final(self).board_view() == s1.update(ci as int, hp.spec_swap())
                    && !line_won(s1, hp) && !full(s1))
            }),
    {
        proof {
            self.lemma_wf_board();
        }
        let human = if self.human_first {
            Piece::X
        } else {
            Piece::O
        };
        let computer_piece = human.swap();
        let computer = if self.human_first {
            self.player_o
        } else {
            self.player_x
        };
        self.board.place_piece(index, human);
        if self.board.is_victory_for_player(human) {
            return None;
        }
        if self.board.is_draw() {
            return None;
        }
        let comp_move = computer.play(&self.board, computer_piece);
        self.board.place_piece(comp_move, computer_piece);
        Some(comp_move)
    }

    /// The nine cells with their canvas offsets, for a renderer.
    pub fn display_commands(&self) -> (r: Vec<(Offset, Piece)>)
        requires
            self.wf(),
        ensures
            r@.len() == 9,
            forall|i: int|
                0 <= i < 9 ==> #[trigger] r@[i] == (
                    Offset::spec_of_index(i),
                    self.board_view()[i],
                ),
    {
        proof {
            self.lemma_wf_board();
        }
        let cells = self.board.board();
        let mut commands: Vec<(Offset, Piece)> = Vec::new();
        let mut i: usize = 0;
        while i < 9
            invariant
                i <= 9,
                cells@ == self.board_view(),
                cells@.len() == 9,
                commands@.len() == i,
                forall|j: int|
                    0 <= j < i ==> #[trigger] commands@[j] == (
                        Offset::spec_of_index(j),
                        self.board_view()[j],
                    ),
            decreases 9 - i,
        {
            let offset = match Offset::new(i) {
                Ok(o) => o,
                Err(_) => {
                    proof {
                        assert(false);
                    }
                    Offset::TopLeft
                },
            };
            commands.push((offset, cells[i]));
            i = i + 1;
        }
        commands
    }

    pub fn is_draw(&self) -> (r: bool)
        requires
            self.wf(),
        ensures
            r == full(self.board_view()),
    {
        self.board.is_draw()
    }

    /// X's win first, then O's, else none.
    pub fn is_victory_for(&self) -> (r: Option<Piece>)
        requires
            self.wf(),
        ensures
            r == if line_won(self.board_view(), Piece::X) {
                Some(Piece::X)
            } else if line_won(self.board_view(), Piece::O) {
                Some(Piece::O)
            } else {
                None::<Piece>
            },
    {
        self.board.is_victory()
    }

    pub fn has_player_won(&self) -> (r: bool)
        requires
            self.wf(),
        ensures
            r == line_won(self.board_view(), self.human_piece()),
    {
        if self.human_first {
            self.board.is_victory_for_player(Piece::X)
        } else {
            self.board.is_victory_for_player(Piece::O)
        }
    }

    pub fn has_player_lost(&self) -> (r: bool)
        requires
            self.wf(),
        ensures
            r == line_won(self.board_view(), self.human_piece().spec_swap()),
    {
        if self.human_first {
            self.board.is_victory_for_player(Piece::O)
        } else {
            self.board.is_victory_for_player(Piece::X)
        }
    }

    /// The reward the human has earned so far: the win tier with a
    /// winning line — victory is checked before fullness, since a full
    /// board can also be a win — else the draw tier on a full board, else
    /// the loss tier.
    pub fn points(&self) -> (r: (i8, i8))
        requires
            self.wf(),
        ensures
            r == if line_won(self.board_view(), self.human_piece()) {
                self.spec_points().win
            } else if full(self.board_view()) {
                self.spec_points().draw
            } else {
                self.spec_points().loss
            },
    {
        if self.has_player_won() {
            self.points.win
        } else if self.is_draw() {
            self.points.draw
        } else {
            self.points.loss
        }
    }

    /// The full reward table of this game.
    pub fn points_table(&self) -> (r: Points)
        ensures
            r == self.spec_points(),
    {
        self.points
    }
}

impl Difficulty {
    /// The difficulty a valid numeric code names.
    pub open spec fn spec_for_code(code: int) -> Difficulty {
        if code == 1 {
            Difficulty::Easy
        } else if code == 2 {
            Difficulty::Medium
        } else if code == 3 {
            Difficulty::Hard
        } else {
            Difficulty::Random
        }
    }
}

} // verus!
