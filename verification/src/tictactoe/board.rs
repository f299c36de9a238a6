//! The 3x3 tic-tac-toe board: piece placement, win and draw detection.

use vstd::prelude::*;

verus! {

/// A cell index into the 3x3 board, row-major: 0..9.
pub type Index = usize;

#[derive(PartialEq, Eq, Structural, Clone, Copy, Debug)]
pub enum Piece {
    X,
    O,
    Empty,
}

impl Piece {
    /// The opposing piece: X and O trade places, Empty stays Empty.
    pub open spec fn spec_swap(self) -> Piece {
        match self {
            Piece::X => Piece::O,
            Piece::O => Piece::X,
            Piece::Empty => Piece::Empty,
        }
    }

    pub fn swap(&self) -> (r: Self)
        ensures
            r == self.spec_swap(),
    {
        match self {
            Piece::X => Piece::O,
            Piece::O => Piece::X,
            Piece::Empty => Piece::Empty,
        }
    }

    /// The text shown for this piece on a rendered board.
    pub open spec fn spec_value(self) -> Seq<char> {
        match self {
            Piece::X => "X"@,
            Piece::O => "O"@,
            Piece::Empty => " "@,
        }
    }

    pub fn value(&self) -> (r: String)
        ensures
            r@ == self.spec_value(),
    {
        match self {
            Piece::X => "X".to_owned(),
            Piece::O => "O".to_owned(),
            Piece::Empty => " ".to_owned(),
        }
    }

    /// The variant's name.
    pub open spec fn spec_name(self) -> Seq<char> {
        match self {
            Piece::X => "X"@,
            Piece::O => "O"@,
            Piece::Empty => "Empty"@,
        }
    }

    pub fn name(&self) -> (r: String)
        ensures
            r@ == self.spec_name(),
    {
        match self {
            Piece::X => "X".to_owned(),
            Piece::O => "O".to_owned(),
            Piece::Empty => "Empty".to_owned(),
        }
    }
}

/// Board positions used by a renderer to lay the nine cells out on a canvas.
#[derive(PartialEq, Eq, Structural, Clone, Copy, Debug)]
pub enum Offset {
    TopLeft,
    TopMiddle,
    TopRight,
    MiddleLeft,
    MiddleMiddle,
    MiddleRight,
    BottomLeft,
    BottomMiddle,
    BottomRight,
}

impl Offset {
    /// The offset that belongs to a cell index.
    pub open spec fn spec_of_index(index: int) -> Offset {
        if index == 0 {
            Offset::TopLeft
        } else if index == 1 {
            Offset::TopMiddle
        } else if index == 2 {
            Offset::TopRight
        } else if index == 3 {
            Offset::MiddleLeft
        } else if index == 4 {
            Offset::MiddleMiddle
        } else if index == 5 {
            Offset::MiddleRight
        } else if index == 6 {
            Offset::BottomLeft
        } else if index == 7 {
            Offset::BottomMiddle
        } else {
            Offset::BottomRight
        }
    }

    /// Maps a cell index to its offset; indices outside 0..9 are rejected.
    pub fn new(index: Index) -> (r: Result<Self, String>)
        ensures
            index < 9 ==> (r matches Ok(o) && o == Offset::spec_of_index(index as int)),
            index >= 9 ==> (r matches Err(e) && e@ == "Invalid index"@),
    {
        match index {
            0 => Ok(Offset::TopLeft),
            1 => Ok(Offset::TopMiddle),
            2 => Ok(Offset::TopRight),
            3 => Ok(Offset::MiddleLeft),
            4 => Ok(Offset::MiddleMiddle),
            5 => Ok(Offset::MiddleRight),
            6 => Ok(Offset::BottomLeft),
            7 => Ok(Offset::BottomMiddle),
            8 => Ok(Offset::BottomRight),
            _ => Err("Invalid index".to_owned()),
        }
    }

    /// The variant's name.
    pub open spec fn spec_name(self) -> Seq<char> {
        match self {
            Offset::TopLeft => "TopLeft"@,
            Offset::TopMiddle => "TopMiddle"@,
            Offset::TopRight => "TopRight"@,
            Offset::MiddleLeft => "MiddleLeft"@,
            Offset::MiddleMiddle => "MiddleMiddle"@,
            Offset::MiddleRight => "MiddleRight"@,
            Offset::BottomLeft => "BottomLeft"@,
            Offset::BottomMiddle => "BottomMiddle"@,
            Offset::BottomRight => "BottomRight"@,
        }
    }

    pub fn name(&self) -> (r: String)
        ensures
            r@ == self.spec_name(),
    {
        match self {
            Offset::TopLeft => "TopLeft".to_owned(),
            Offset::TopMiddle => "TopMiddle".to_owned(),
            Offset::TopRight => "TopRight".to_owned(),
            Offset::MiddleLeft => "MiddleLeft".to_owned(),
            Offset::MiddleMiddle => "MiddleMiddle".to_owned(),
            Offset::MiddleRight => "MiddleRight".to_owned(),
            Offset::BottomLeft => "BottomLeft".to_owned(),
            Offset::BottomMiddle => "BottomMiddle".to_owned(),
            Offset::BottomRight => "BottomRight".to_owned(),
        }
    }

    /// The pixel coordinates (x, y) of the offset on the rendered canvas.
    pub open spec fn spec_coords(self) -> (u16, u16) {
        match self {
            Offset::TopLeft => (0u16, 0u16),
            Offset::TopMiddle => (179u16, 0u16),
            Offset::TopRight => (355u16, 0u16),
            Offset::MiddleLeft => (0u16, 179u16),
            Offset::MiddleMiddle => (179u16, 179u16),
            Offset::MiddleRight => (355u16, 179u16),
            Offset::BottomLeft => (0u16, 357u16),
            Offset::BottomMiddle => (179u16, 357u16),
            Offset::BottomRight => (355u16, 357u16),
        }
    }

    pub fn value(&self) -> (r: (u16, u16))
        ensures
            r == self.spec_coords(),
    {
        match self {
            Offset::TopLeft => (0, 0),
            Offset::TopMiddle => (179, 0),
            Offset::TopRight => (355, 0),
            Offset::MiddleLeft => (0, 179),
            Offset::MiddleMiddle => (179, 179),
            Offset::MiddleRight => (355, 179),
            Offset::BottomLeft => (0, 357),
            Offset::BottomMiddle => (179, 357),
            Offset::BottomRight => (355, 357),
        }
    }
}

/// How many of the first `n` cells of `s` are empty.
pub open spec fn empty_count(s: Seq<Piece>, n: int) -> int
    decreases n,
{
    if n <= 0 {
        0
    } else {
        empty_count(s, n - 1) + if s[n - 1] is Empty {
            1int
        } else {
            0int
        }
    }
}

/// A board is full when none of its nine cells is empty.
pub open spec fn full(s: Seq<Piece>) -> bool {
    empty_count(s, 9) == 0
}

/// Player `p` owns one of the eight winning lines: three rows, three
/// columns, or two diagonals.
pub open spec fn line_won(s: Seq<Piece>, p: Piece) -> bool {
    ||| (s[0] == p && s[1] == p && s[2] == p)
    ||| (s[3] == p && s[4] == p && s[5] == p)
    ||| (s[6] == p && s[7] == p && s[8] == p)
    ||| (s[0] == p && s[3] == p && s[6] == p)
    ||| (s[1] == p && s[4] == p && s[7] == p)
    ||| (s[2] == p && s[5] == p && s[8] == p)
    ||| (s[0] == p && s[4] == p && s[8] == p)
    ||| (s[2] == p && s[4] == p && s[6] == p)
}

pub proof fn lemma_empty_count_bounds(s: Seq<Piece>, n: int)
    ensures
        0 <= empty_count(s, n) <= if n <= 0 {
            0int
        } else {
            n
        },
    decreases n,
{
    if n > 0 {
        lemma_empty_count_bounds(s, n - 1);
    }
}

/// Overwriting an empty cell below `n` with a piece lowers the count of
/// empty cells by one; overwriting at or above `n` leaves it unchanged.
pub proof fn lemma_empty_count_update(s: Seq<Piece>, n: int, j: int, p: Piece)
    requires
        n <= s.len(),
        0 <= j < s.len(),
        s[j] is Empty,
        !(p is Empty),
    ensures
        j < n ==> empty_count(s.update(j, p), n) == empty_count(s, n) - 1,
        j >= n ==> empty_count(s.update(j, p), n) == empty_count(s, n),
    decreases n,
{
    if n > 0 {
        lemma_empty_count_update(s, n - 1, j, p);
    }
}

/// A board with no empty cell among its first `n` has every one of those
/// cells occupied.
pub proof fn lemma_no_empties_means_occupied(s: Seq<Piece>, n: int)
    requires
        empty_count(s, n) == 0,
    ensures
        forall|i: int| 0 <= i < n ==> !(s[i] is Empty),
    decreases n,
{
    if n > 0 {
        lemma_empty_count_bounds(s, n - 1);
        lemma_no_empties_means_occupied(s, n - 1);
    }
}

/// A board with a piece in each of its first `n` cells has no empties
/// among them.
pub proof fn lemma_occupied_empty_count(s: Seq<Piece>, n: int)
    requires
        forall|i: int| 0 <= i < n ==> !(s[i] is Empty),
    ensures
        empty_count(s, n) == 0,
    decreases n,
{
    if n > 0 {
        lemma_occupied_empty_count(s, n - 1);
    }
}

/// A full board has a piece in every cell. Together with `Board::is_draw`'s
/// contract this says: when `is_draw` reports true, nine pieces have been
/// placed.
pub proof fn lemma_draw_board_occupied(s: Seq<Piece>)
    requires
        full(s),
    ensures
        forall|i: int| 0 <= i < 9 ==> !(s[i] is Empty),
{
    lemma_no_empties_means_occupied(s, 9);
}

/// The fixed 3x3 grid with a running count of placed pieces.
#[derive(Clone, Debug)]
pub struct Board {
    board: Vec<Piece>,
    n_pieces: u8,
}

impl View for Board {
    type V = Seq<Piece>;

    closed spec fn view(&self) -> Seq<Piece> {
        self.board@
    }
}

impl Board {
    /// The board's bookkeeping is sound: nine cells, and the counter equals
    /// the number of occupied cells.
    pub closed spec fn wf(self) -> bool {
        &&& self.board@.len() == 9
        &&& self.n_pieces == 9 - empty_count(self.board@, 9)
    }

    pub fn new() -> (r: Board)
        ensures
            r.wf(),
            r@ =~= Seq::new(9, |i: int| Piece::Empty),
    {
        let mut v: Vec<Piece> = Vec::new();
        let mut i: usize = 0;
        while i < 9
            invariant
                i <= 9,
                v@.len() == i,
                forall|j: int| 0 <= j < i ==> v@[j] == Piece::Empty,
            decreases 9 - i,
        {
            v.push(Piece::Empty);
            i = i + 1;
        }
        let r = Board { board: v, n_pieces: 0 };
        proof {
            lemma_no_empty_count(r.board@, 9);
        }
        r
    }

    /// A sound board always has exactly nine cells.
    pub proof fn lemma_wf_len(&self)
        requires
            self.wf(),
        ensures
            self@.len() == 9,
    {
    }

    /// A copy of the board whose state the contracts can track.
    pub fn duplicate(&self) -> (r: Board)
        requires
            self.wf(),
        ensures
            r.wf(),
            r@ == self@,
    {
        Board { board: self.board.clone(), n_pieces: self.n_pieces }
    }

    /// The number of pieces placed so far.
    pub fn piece_count(&self) -> (r: u8)
        requires
            self.wf(),
        ensures
            r == 9 - empty_count(self@, 9),
    {
        self.n_pieces
    }

    /// The cells, in row-major order.
    pub fn board(&self) -> (r: Vec<Piece>)
        ensures
            r@ == self@,
    {
        self.board.clone()
    }

    pub fn cell_is_empty(&self, index: Index) -> (r: bool)
        requires
            self.wf(),
            index < 9,
        ensures
            r == (self@[index as int] is Empty),
    {
        self.board[index] == Piece::Empty
    }

    /// Places `piece` on an empty cell. Submitting an occupied cell or an
    /// out-of-range index is a caller-side fault, excluded by precondition.
    pub fn place_piece(&mut self, index: Index, piece: Piece) -> (r: bool)
        requires
            old(self).wf(),
            index < 9,
            old(self)@[index as int] is Empty,
            !(piece is Empty),
        ensures
            final(self).wf(),
            final(self)@ == old(self)@.update(index as int, piece),
            r,
    {
        proof {
            lemma_empty_count_update(self.board@, 9, index as int, piece);
            lemma_empty_count_bounds(self.board@, 9);
        }
        self.board[index] = piece;
        self.n_pieces = self.n_pieces + 1;
        true
    }

    pub fn is_valid_index(index: Index) -> (r: bool)
        ensures
            r == (index < 9),
    {
        index < 9
    }

    /// True when all nine cells are occupied; a full board can also be a
    /// win, so callers must check victory first.
    pub fn is_draw(&self) -> (r: bool)
        requires
            self.wf(),
        ensures
            r == full(self@),
    {
        proof {
            lemma_empty_count_bounds(self.board@, 9);
        }
        self.n_pieces >= 9
    }

    fn triple(&self, player: Piece, a: Index, b: Index, c: Index) -> (r: bool)
        requires
            self.wf(),
            a < 9,
            b < 9,
            c < 9,
        ensures
            r == (self@[a as int] == player && self@[b as int] == player && self@[c as int]
                == player),
    {
        self.board[a] == player && self.board[b] == player && self.board[c] == player
    }

    pub fn is_victory_for_player(&self, player: Piece) -> (r: bool)
        requires
            self.wf(),
        ensures
            r == line_won(self@, player),
    {
        self.triple(player, 0, 1, 2) || self.triple(player, 3, 4, 5) || self.triple(
            player,
            6,
            7,
            8,
        ) || self.triple(player, 0, 3, 6) || self.triple(player, 1, 4, 7) || self.triple(
            player,
            2,
            5,
            8,
        ) || self.triple(player, 0, 4, 8) || self.triple(player, 2, 4, 6)
    }

    /// X's win is reported first; simultaneous wins cannot arise under
    /// alternating play and are not checked.
    pub fn is_victory(&self) -> (r: Option<Piece>)
        requires
            self.wf(),
        ensures
            r == if line_won(self@, Piece::X) {
                Some(Piece::X)
            } else if line_won(self@, Piece::O) {
                Some(Piece::O)
            } else {
                None::<Piece>
            },
    {
        if self.is_victory_for_player(Piece::X) {
            Some(Piece::X)
        } else if self.is_victory_for_player(Piece::O) {
            Some(Piece::O)
        } else {
            None
        }
    }

    /// The text for one cell: the piece, or the cell's digit when empty.
    pub open spec fn spec_cell_text(s: Seq<Piece>, index: int) -> Seq<char> {
        if s[index] is Empty {
            if index == 0 {
                "0"@
            } else if index == 1 {
                "1"@
            } else if index == 2 {
                "2"@
            } else if index == 3 {
                "3"@
            } else if index == 4 {
                "4"@
            } else if index == 5 {
                "5"@
            } else if index == 6 {
                "6"@
            } else if index == 7 {
                "7"@
            } else {
                "8"@
            }
        } else {
            s[index].spec_value()
        }
    }

    pub fn format_cell(&self, index: Index) -> (r: String)
        requires
            self.wf(),
            index < 9,
        ensures
            r@ == Board::spec_cell_text(self@, index as int),
    {
        match self.board[index] {
            Piece::Empty => match index {
                0 => "0".to_owned(),
                1 => "1".to_owned(),
                2 => "2".to_owned(),
                3 => "3".to_owned(),
                4 => "4".to_owned(),
                5 => "5".to_owned(),
                6 => "6".to_owned(),
                7 => "7".to_owned(),
                _ => "8".to_owned(),
            },
            player => player.value(),
        }
    }
}

/// A sequence of empty cells has as many empties as cells.
pub proof fn lemma_no_empty_count(s: Seq<Piece>, n: int)
    requires
        forall|i: int| 0 <= i < n ==> s[i] is Empty,
    ensures
        empty_count(s, n) == if n <= 0 {
            0int
        } else {
            n
        },
    decreases n,
{
    if n > 0 {
        lemma_no_empty_count(s, n - 1);
    }
}

} // verus!
