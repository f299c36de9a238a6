//! One minesweeper playthrough: a field, the reward pair its difficulty
//! preset fixed, and the reveal, chord and flag operations.

use vstd::prelude::*;
use crate::minesweeper::common::MoveDestination;
use crate::minesweeper::field::{
    Cell, CellTest, Content, Field, count_cells, flood_reachable, generated_for, in_neighborhood,
    marked_nbhd_count, only_flood_changes,
};
use crate::rng::entropy_rng;

verus! {

/// What one reveal did: unflagged the cell instead, hit a mine, opened an
/// empty cascade, or opened a single number.
#[derive(PartialEq, Eq, Structural, Clone, Copy, Debug)]
pub enum RevealResult {
    Flagged,
    Mine,
    Empty,
    Number,
}

/// What a chord did: nothing (the flags did not match), opened the
/// neighbors, or detonated a mine.
#[derive(PartialEq, Eq, Structural, Clone, Copy, Debug)]
pub enum ChordResult {
    Failed,
    Success,
    Death,
}

/// The two cell flags a caller can see without the content.
#[derive(PartialEq, Eq, Structural, Clone, Copy, Debug)]
pub struct ReturnCell {
    pub revealed: bool,
    pub marked: bool,
}

/// A minesweeper game: the field plus the points paid out on a win or a
/// loss, and whether the game was ended by a detonation or a forfeit.
pub struct Game {
    field: Field,
    win_points: (u8, u8),
    lose_points: (u8, u8),
    quit: bool,
}

impl View for Game {
    type V = Seq<Cell>;

    closed spec fn view(&self) -> Seq<Cell> {
        self.field@
    }
}

impl Game {
    pub closed spec fn spec_field(self) -> Field {
        self.field
    }

    pub closed spec fn spec_win_points(self) -> (u8, u8) {
        self.win_points
    }

    pub closed spec fn spec_lose_points(self) -> (u8, u8) {
        self.lose_points
    }

    pub closed spec fn spec_quit(self) -> bool {
        self.quit
    }

    pub open spec fn wf(self) -> bool {
        self.spec_field().wf()
    }

    /// The game counts as won while it was not ended by force and every
    /// number opened in play has been counted.
    pub open spec fn spec_is_win(self) -> bool {
        !self.spec_quit() && self.spec_field().spec_numbers_total()
            == self.spec_field().spec_numbers_opened()
    }

    /// A custom board; the reward tier is the plain one.
    pub fn new(width: u32, height: u32, mines: u32) -> (r: Game)
        requires
            1 <= width,
            1 <= height,
            width * height <= u32::MAX,
        ensures
            r.wf(),
            r.spec_field().counts_exact(),
            r.spec_field().spec_width() == width,
            r.spec_field().spec_height() == height,
            r.spec_field().spec_mines() == mines,
            r.spec_field().spec_need_regen(),
            r@.len() == r.spec_field().spec_size(),
            forall|j: int| 0 <= j < r@.len() ==> r@[j] == Cell::spec_empty(),
            r.spec_field().spec_numbers_total() == 0,
            r.spec_field().spec_numbers_opened() == 0,
            r.spec_win_points() == (1u8, 0u8),
            r.spec_lose_points() == (1u8, 0u8),
            !r.spec_quit(),
    {
        let rng = entropy_rng();
        Game {
            field: Field::new(width, height, mines, rng),
            win_points: (1, 0),
            lose_points: (1, 0),
            quit: false,
        }
    }

    /// The 8x8 board with 10 mines.
    pub fn beginner() -> (r: Game)
        ensures
            r.wf(),
            r.spec_field().counts_exact(),
            r.spec_field().spec_width() == 8,
            r.spec_field().spec_height() == 8,
            r.spec_field().spec_mines() == 10,
            r.spec_field().spec_need_regen(),
            r.spec_field().spec_x() == 4 && r.spec_field().spec_y() == 4,
            r@.len() == r.spec_field().spec_size(),
            forall|j: int| 0 <= j < r@.len() ==> r@[j] == Cell::spec_empty(),
            r.spec_field().spec_numbers_total() == 0,
            r.spec_field().spec_numbers_opened() == 0,
            r.spec_win_points() == (1u8, 1u8),
            r.spec_lose_points() == (1u8, 0u8),
            !r.spec_quit(),
    {
        Game {
            field: Field::new(8, 8, 10, entropy_rng()),
            win_points: (1, 1),
            lose_points: (1, 0),
            quit: false,
        }
    }

    /// The 16x16 board with 40 mines.
    pub fn intermediate() -> (r: Game)
        ensures
            r.wf(),
            r.spec_field().counts_exact(),
            r.spec_field().spec_width() == 16,
            r.spec_field().spec_height() == 16,
            r.spec_field().spec_mines() == 40,
            r.spec_field().spec_need_regen(),
            r.spec_field().spec_x() == 8 && r.spec_field().spec_y() == 8,
            r@.len() == r.spec_field().spec_size(),
            forall|j: int| 0 <= j < r@.len() ==> r@[j] == Cell::spec_empty(),
            r.spec_field().spec_numbers_total() == 0,
            r.spec_field().spec_numbers_opened() == 0,
            r.spec_win_points() == (2u8, 3u8),
            r.spec_lose_points() == (2u8, 0u8),
            !r.spec_quit(),
    {
        Game {
            field: Field::new(16, 16, 40, entropy_rng()),
            win_points: (2, 3),
            lose_points: (2, 0),
            quit: false,
        }
    }

    /// The 22x22 board with 100 mines.
    pub fn expert() -> (r: Game)
        ensures
            r.wf(),
            r.spec_field().counts_exact(),
            r.spec_field().spec_width() == 22,
            r.spec_field().spec_height() == 22,
            r.spec_field().spec_mines() == 100,
            r.spec_field().spec_need_regen(),
            r.spec_field().spec_x() == 11 && r.spec_field().spec_y() == 11,
            r@.len() == r.spec_field().spec_size(),
            forall|j: int| 0 <= j < r@.len() ==> r@[j] == Cell::spec_empty(),
            r.spec_field().spec_numbers_total() == 0,
            r.spec_field().spec_numbers_opened() == 0,
            r.spec_win_points() == (2u8, 4u8),
            r.spec_lose_points() == (2u8, 0u8),
            !r.spec_quit(),
    {
        Game {
            field: Field::new(22, 22, 100, entropy_rng()),
            win_points: (2, 4),
            lose_points: (2, 0),
            quit: false,
        }
    }

    /// The 25x25 board with 130 mines.
    pub fn super_expert() -> (r: Game)
        ensures
            r.wf(),
            r.spec_field().counts_exact(),
            r.spec_field().spec_width() == 25,
            r.spec_field().spec_height() == 25,
            r.spec_field().spec_mines() == 130,
            r.spec_field().spec_need_regen(),
            r.spec_field().spec_x() == 12 && r.spec_field().spec_y() == 12,
            r@.len() == r.spec_field().spec_size(),
            forall|j: int| 0 <= j < r@.len() ==> r@[j] == Cell::spec_empty(),
            r.spec_field().spec_numbers_total() == 0,
            r.spec_field().spec_numbers_opened() == 0,
            r.spec_win_points() == (3u8, 5u8),
            r.spec_lose_points() == (3u8, 0u8),
            !r.spec_quit(),
    {
        Game {
            field: Field::new(25, 25, 130, entropy_rng()),
            win_points: (3, 5),
            lose_points: (3, 0),
            quit: false,
        }
    }

    /// Wraps an existing field — seeded or already generated — with the
    /// given reward pairs.
    pub fn with_field(field: Field, win_points: (u8, u8), lose_points: (u8, u8)) -> (r: Game)
        requires
            field.wf(),
        ensures
            r.wf(),
            r.spec_field() == field,
            r.spec_win_points() == win_points,
            r.spec_lose_points() == lose_points,
            !r.spec_quit(),
    {
        Game { field, win_points, lose_points, quit: false }
    }

    /// The reward earned so far: the win pair while the game counts as
    /// won, the loss pair otherwise.
    pub fn points(&self) -> (r: (u8, u8))
        ensures
            r == if self.spec_is_win() {
                self.spec_win_points()
            } else {
                self.spec_lose_points()
            },
    {
        if self.is_win() {
            self.win_points
        } else {
            self.lose_points
        }
    }

    pub fn win_points(&self) -> (r: (u8, u8))
        ensures
            r == self.spec_win_points(),
    {
        self.win_points
    }

    pub fn lose_points(&self) -> (r: (u8, u8))
        ensures
            r == self.spec_lose_points(),
    {
        self.lose_points
    }

    pub fn flagged_count(&self) -> (r: u32)
        requires
            self.wf(),
        ensures
            r == count_cells(self@, self.spec_field().spec_size() as int, CellTest::IsMarked),
    {
        self.field.count_marked()
    }

    pub fn mine_count(&self) -> (r: u32)
        ensures
            r == self.spec_field().spec_mines(),
    {
        self.field.total_mines()
    }

    pub fn size(&self) -> (r: u32)
        ensures
            r == self.spec_field().spec_size(),
    {
        self.field.get_size()
    }

    pub fn width(&self) -> (r: u32)
        ensures
            r == self.spec_field().spec_width(),
    {
        self.field.get_width()
    }

    pub fn height(&self) -> (r: u32)
        ensures
            r == self.spec_field().spec_height(),
    {
        self.field.get_height()
    }

    pub fn x(&self) -> (r: u32)
        ensures
            r == self.spec_field().spec_x(),
    {
        self.field.get_x()
    }

    pub fn y(&self) -> (r: u32)
        ensures
            r == self.spec_field().spec_y(),
    {
        self.field.get_y()
    }

    /// Moves the cursor to the given row; a row outside the field is
    /// rejected, since it plausibly comes from unchecked input.
    pub fn change_row(&mut self, row: u32) -> (r: Result<ReturnCell, String>)
        requires
            old(self).wf(),
        ensures
            final(self).wf(),
            final(self)@ == old(self)@,
            Field::same_config(old(self).spec_field(), final(self).spec_field()),
            final(self).spec_quit() == old(self).spec_quit(),
            final(self).spec_win_points() == old(self).spec_win_points(),
            final(self).spec_lose_points() == old(self).spec_lose_points(),
            final(self).spec_field().spec_numbers_total()
                == old(self).spec_field().spec_numbers_total(),
            final(self).spec_field().spec_numbers_opened()
                == old(self).spec_field().spec_numbers_opened(),
            final(self).spec_field().spec_need_regen()
                == old(self).spec_field().spec_need_regen(),
            row >= old(self).spec_field().spec_height() ==> (r matches Err(e) && e@
                == "Row index out of range"@ && *final(self) == *old(self)),
            row < old(self).spec_field().spec_height() ==> ({
                let f = *final(self);
                let ind = (f.spec_field().spec_x() + row * f.spec_field().spec_width()) as int;
                &&& f.spec_field().spec_y() == row
                &&& f.spec_field().spec_x() == old(self).spec_field().spec_x()
                &&& (r matches Ok(cell) && cell == (ReturnCell {
                    revealed: f@[ind].revealed,
                    marked: f@[ind].marked,
                }))
            }),
    {
        if row >= self.field.get_height() {
            return Err("Row index out of range".to_owned());
        }
        while self.field.get_y() < row
            invariant
                self.wf(),
                row < self.spec_field().spec_height(),
                self@ == old(self)@,
                Field::same_config(old(self).spec_field(), self.spec_field()),
                self.spec_quit() == old(self).spec_quit(),
                self.spec_win_points() == old(self).spec_win_points(),
                self.spec_lose_points() == old(self).spec_lose_points(),
                self.spec_field().spec_numbers_total() == old(self).spec_field().spec_numbers_total(),
                self.spec_field().spec_numbers_opened() == old(self).spec_field().spec_numbers_opened(),
                self.spec_field().spec_need_regen() == old(self).spec_field().spec_need_regen(),
                self.spec_field().spec_x() == old(self).spec_field().spec_x(),
            decreases row - self.spec_field().spec_y(),
        {
            self.field.move_selection(MoveDestination::Down);
        }
        while self.field.get_y() > row
            invariant
                self.wf(),
                row < self.spec_field().spec_height(),
                self@ == old(self)@,
                Field::same_config(old(self).spec_field(), self.spec_field()),
                self.spec_quit() == old(self).spec_quit(),
                self.spec_win_points() == old(self).spec_win_points(),
                self.spec_lose_points() == old(self).spec_lose_points(),
                self.spec_field().spec_numbers_total() == old(self).spec_field().spec_numbers_total(),
                self.spec_field().spec_numbers_opened() == old(self).spec_field().spec_numbers_opened(),
                self.spec_field().spec_need_regen() == old(self).spec_field().spec_need_regen(),
                self.spec_field().spec_x() == old(self).spec_field().spec_x(),
                self.spec_field().spec_y() >= row,
            decreases self.spec_field().spec_y(),
        {
            self.field.move_selection(MoveDestination::Up);
        }
        Ok(self.field.get_selected_cell().to_return_cell())
    }

    /// Moves the cursor to the given column; a column outside the field
    /// is rejected.
    pub fn change_col(&mut self, col: u32) -> (r: Result<ReturnCell, String>)
        requires
            old(self).wf(),
        ensures
            final(self).wf(),
            final(self)@ == old(self)@,
            Field::same_config(old(self).spec_field(), final(self).spec_field()),
            final(self).spec_quit() == old(self).spec_quit(),
            final(self).spec_win_points() == old(self).spec_win_points(),
            final(self).spec_lose_points() == old(self).spec_lose_points(),
            final(self).spec_field().spec_numbers_total()
                == old(self).spec_field().spec_numbers_total(),
            final(self).spec_field().spec_numbers_opened()
                == old(self).spec_field().spec_numbers_opened(),
            final(self).spec_field().spec_need_regen()
                == old(self).spec_field().spec_need_regen(),
            col >= old(self).spec_field().spec_width() ==> (r matches Err(e) && e@
                == "Column index out of range"@ && *final(self) == *old(self)),
            col < old(self).spec_field().spec_width() ==> ({
                let f = *final(self);
                let ind = (col + f.spec_field().spec_y() * f.spec_field().spec_width()) as int;
                &&& f.spec_field().spec_x() == col
                &&& f.spec_field().spec_y() == old(self).spec_field().spec_y()
                &&& (r matches Ok(cell) && cell == (ReturnCell {
                    revealed: f@[ind].revealed,
                    marked: f@[ind].marked,
                }))
            }),
    {
        if col >= self.field.get_width() {
            return Err("Column index out of range".to_owned());
        }
        while self.field.get_x() < col
            invariant
                self.wf(),
                col < self.spec_field().spec_width(),
                self@ == old(self)@,
                Field::same_config(old(self).spec_field(), self.spec_field()),
                self.spec_quit() == old(self).spec_quit(),
                self.spec_win_points() == old(self).spec_win_points(),
                self.spec_lose_points() == old(self).spec_lose_points(),
                self.spec_field().spec_numbers_total() == old(self).spec_field().spec_numbers_total(),
                self.spec_field().spec_numbers_opened() == old(self).spec_field().spec_numbers_opened(),
                self.spec_field().spec_need_regen() == old(self).spec_field().spec_need_regen(),
                self.spec_field().spec_y() == old(self).spec_field().spec_y(),
            decreases col - self.spec_field().spec_x(),
        {
            self.field.move_selection(MoveDestination::Right);
        }
        while self.field.get_x() > col
            invariant
                self.wf(),
                col < self.spec_field().spec_width(),
                self@ == old(self)@,
                Field::same_config(old(self).spec_field(), self.spec_field()),
                self.spec_quit() == old(self).spec_quit(),
                self.spec_win_points() == old(self).spec_win_points(),
                self.spec_lose_points() == old(self).spec_lose_points(),
                self.spec_field().spec_numbers_total() == old(self).spec_field().spec_numbers_total(),
                self.spec_field().spec_numbers_opened() == old(self).spec_field().spec_numbers_opened(),
                self.spec_field().spec_need_regen() == old(self).spec_field().spec_need_regen(),
                self.spec_field().spec_y() == old(self).spec_field().spec_y(),
                self.spec_field().spec_x() >= col,
            decreases self.spec_field().spec_x(),
        {
            self.field.move_selection(MoveDestination::Left);
        }
        Ok(self.field.get_selected_cell().to_return_cell())
    }

    /// Flips the flag on the selected cell; fails on a revealed cell.
    pub fn toggle_flag(&mut self) -> (r: bool)
        requires
            old(self).wf(),
        ensures
            final(self).wf(),
            old(self).spec_field().counts_exact() ==> final(self).spec_field().counts_exact(),
            Field::same_config(old(self).spec_field(), final(self).spec_field()),
            final(self).spec_quit() == old(self).spec_quit(),
            final(self).spec_win_points() == old(self).spec_win_points(),
            final(self).spec_lose_points() == old(self).spec_lose_points(),
            ({
                let ind = (old(self).spec_field().spec_x() + old(self).spec_field().spec_y() * old(self).spec_field().spec_width()) as int;
                &&& r == !old(self)@[ind].revealed
                &&& (old(self)@[ind].revealed ==> final(self)@ == old(self)@)
                &&& (!old(self)@[ind].revealed ==> final(self)@ == old(self)@.update(
                    ind,
                    (Cell { marked: !old(self)@[ind].marked, ..old(self)@[ind] }),
                ))
            }),
    {
        let ind = self.field.get_selected_ind();
        self.field.toggle_mark(ind)
    }

    /// Reveals the selected cell. The first reveal of a game generates
    /// the board first, so it can never hit a mine; a flagged cell is
    /// unflagged instead of revealed; a blank cell cascades through every
    /// flood-reachable non-mine cell; a mine ends the game as a loss and
    /// uncovers the whole board; a number opens that one cell.
    pub fn uncover(&mut self) -> (r: RevealResult)
        requires
            old(self).wf(),
        ensures
            final(self).wf(),
            Field::same_config(old(self).spec_field(), final(self).spec_field()),
            final(self).spec_win_points() == old(self).spec_win_points(),
            final(self).spec_lose_points() == old(self).spec_lose_points(),
            final(self).spec_field().spec_x() == old(self).spec_field().spec_x(),
            final(self).spec_field().spec_y() == old(self).spec_field().spec_y(),
            !final(self).spec_field().spec_need_regen(),
            final(self).spec_quit() == (old(self).spec_quit() || r is Mine),
            old(self).spec_field().spec_need_regen() ==> r != RevealResult::Mine && r
                != RevealResult::Flagged,
            !old(self).spec_field().spec_need_regen() ==> final(self).spec_field().spec_numbers_total()
                == old(self).spec_field().spec_numbers_total(),
            ({
                let ind = (old(self).spec_field().spec_x() + old(self).spec_field().spec_y() * old(self).spec_field().spec_width()) as int;
                &&& (r is Flagged ==> (final(self)@[ind].revealed || !final(self)@[ind].marked))
                &&& (r is Mine ==> final(self)@[ind].content == Content::Mine(true) && (forall|j: int|
                    0 <= j < final(self)@.len() ==> (#[trigger] final(self)@[j]).revealed))
                &&& (r is Number ==> final(self)@[ind].revealed && final(self)@[ind].content
                    is Number)
                &&& (r is Empty ==> final(self)@[ind].revealed && final(self)@[ind].content
                    is Blank)
            }),
            ({
                let ind = (old(self).spec_field().spec_x() + old(self).spec_field().spec_y() * old(self).spec_field().spec_width()) as int;
                let w = old(self).spec_field().spec_width() as int;
                let pre = old(self)@;
                !old(self).spec_field().spec_need_regen() ==> {
                    &&& ((r is Flagged) <==> pre[ind].marked)
                    &&& (pre[ind].marked ==> (if pre[ind].revealed {
                        final(self)@ == pre
                    } else {
                        final(self)@ == pre.update(ind, (Cell { marked: false, ..pre[ind] }))
                    }) && final(self).spec_field().spec_numbers_opened() == old(self).spec_field().spec_numbers_opened())
                    &&& (!pre[ind].marked ==> ((r is Mine) <==> pre[ind].content is Mine) && ((r
                        is Number) <==> pre[ind].content is Number) && ((r is Empty) <==> pre[ind].content
                        is Blank))
                    &&& (!pre[ind].marked && pre[ind].content is Number ==> final(self)@
                        == pre.update(ind, (Cell { revealed: true, ..pre[ind] })))
                    &&& (!pre[ind].marked && pre[ind].content is Blank ==> {
                        let mid = pre.update(ind, (Cell { revealed: true, ..pre[ind] }));
                        &&& (forall|j: int|
                            0 <= j < pre.len() ==> only_flood_changes(mid, final(self)@, j))
                        &&& (forall|j: int|
                            0 <= j < pre.len() && (#[trigger] final(self)@[j]) != mid[j] ==> (j
                                == ind || flood_reachable(mid, w, ind, j)))
                        &&& (forall|j: int|
                            0 <= j < pre.len() && #[trigger] flood_reachable(mid, w, ind, j) && !(
                            mid[j].content is Mine) ==> final(self)@[j].revealed)
                    })
                    &&& (!pre[ind].marked && pre[ind].content is Mine ==> (forall|j: int|
                        0 <= j < pre.len() && j != ind ==> final(self)@[j] == (Cell {
                            revealed: true,
                            ..pre[j]
                        })) && final(self)@[ind] == (Cell {
                        content: Content::Mine(true),
                        revealed: true,
                        marked: false,
                    }))
                }
            }),
    {
        let ghost pre = self@;
        let ind = self.field.get_selected_ind();
        self.field.reset_if_need(ind);
        proof {
            if old(self).spec_field().spec_need_regen() {
                assert(in_neighborhood(
                    self.spec_field().spec_width() as int,
                    ind as int,
                    ind as int,
                ));
            }
        }
        if self.field.marked(ind) {
            self.field.toggle_mark(ind);
            return RevealResult::Flagged;
        }
        match self.field.uncover(ind) {
            Content::Blank => {
                let ghost mid = self@;
                self.field.chain_reveal(ind);
                proof {
                    assert(only_flood_changes(mid, self@, ind as int));
                }
                RevealResult::Empty
            },
            Content::Mine(_) => {
                let ghost opened = self@;
                self.field.reveal_all();
                self.field.set_killer(ind);
                self.quit = true;
                proof {
                    if !old(self).spec_field().spec_need_regen() {
                        assert forall|j: int| 0 <= j < pre.len() && j != ind as int implies self@[j]
                            == (Cell { revealed: true, ..pre[j] }) by {
                            assert(opened[j] == pre[j]);
                        }
                    }
                }
                RevealResult::Mine
            },
            Content::Number(_) => RevealResult::Number,
        }
    }

    /// Chords on the selected cell: when it is a revealed number whose
    /// flagged-neighbor count matches it, every unflagged neighbor is
    /// revealed — cascading through blanks, and detonating if a flag was
    /// wrong, which ends the game as a loss; any mismatch changes nothing
    /// at all.
    pub fn chord(&mut self) -> (r: ChordResult)
        requires
            old(self).wf(),
        ensures
            final(self).wf(),
            Field::same_config(old(self).spec_field(), final(self).spec_field()),
            final(self).spec_quit() == (old(self).spec_quit() || r is Death),
            r is Death ==> !final(self).spec_is_win(),
            final(self).spec_win_points() == old(self).spec_win_points(),
            final(self).spec_lose_points() == old(self).spec_lose_points(),
            final(self).spec_field().spec_x() == old(self).spec_field().spec_x(),
            final(self).spec_field().spec_y() == old(self).spec_field().spec_y(),
            final(self).spec_field().spec_numbers_total() == old(self).spec_field().spec_numbers_total(),
            old(self).spec_field().counts_exact() && !(r is Death) ==> final(self).spec_field().counts_exact(),
            r is Failed ==> *final(self) == *old(self),
            !(r is Death) ==> (forall|j: int|
                0 <= j < old(self)@.len() ==> only_flood_changes(old(self)@, final(self)@, j)),
            ({
                let w = old(self).spec_field().spec_width() as int;
                let size = old(self).spec_field().spec_size() as int;
                let ind = (old(self).spec_field().spec_x() + old(self).spec_field().spec_y() * old(self).spec_field().spec_width()) as int;
                &&& ((r is Failed) <==> !(old(self)@[ind].content matches Content::Number(n)
                    && old(self)@[ind].revealed && marked_nbhd_count(old(self)@, w, ind, size)
                    == n))
                &&& (r is Success ==> forall|j: int|
                    0 <= j < size && in_neighborhood(w, ind, j) ==> ((#[trigger] final(self)@[j]).marked
                        || final(self)@[j].revealed))
                &&& (r is Death ==> forall|j: int|
                    0 <= j < size ==> (#[trigger] final(self)@[j]).revealed)
                &&& (r is Death ==> exists|j: int|
                    0 <= j < size && in_neighborhood(w, ind, j) && !old(self)@[j].marked
                        && old(self)@[j].content is Mine && #[trigger] final(self)@[j].content
                        == Content::Mine(true))
            }),
    {
        let ghost w = self.spec_field().spec_width() as int;
        let ghost size = self.spec_field().spec_size() as int;
        let ind = self.field.get_selected_ind();
        let content = self.field.get_content(ind);
        if let Content::Number(n) = content {
            if !self.field.revealed(ind) {
                return ChordResult::Failed;
            }
            let count = self.field.get_neighborhood_count(ind);
            if count == n as u32 {
                let surrounding = self.field.get_near_cells_ids(ind);
                let mut k: usize = 0;
                while k < surrounding.len()
                    invariant
                        self.wf(),
                        old(self).spec_field().counts_exact() ==> self.spec_field().counts_exact(),
                        Field::same_config(old(self).spec_field(), self.spec_field()),
                        self.spec_quit() == old(self).spec_quit(),
                        self.spec_win_points() == old(self).spec_win_points(),
                        self.spec_lose_points() == old(self).spec_lose_points(),
                        self.spec_field().spec_x() == old(self).spec_field().spec_x(),
                        self.spec_field().spec_y() == old(self).spec_field().spec_y(),
                        self.spec_field().spec_need_regen() == old(self).spec_field().spec_need_regen(),
                        self.spec_field().spec_numbers_total() == old(self).spec_field().spec_numbers_total(),
                        w == self.spec_field().spec_width() as int,
                        size == self.spec_field().spec_size() as int,
                        self@.len() == size,
                        ind < old(self).spec_field().spec_size(),
                        ind == old(self).spec_field().spec_x() + old(self).spec_field().spec_y()
                            * old(self).spec_field().spec_width(),
                        old(self)@[ind as int].content == Content::Number(n),
                        old(self)@[ind as int].revealed,
                        marked_nbhd_count(old(self)@, w, ind as int, size) == n as int,
                        k <= surrounding@.len(),
                        forall|t: int|
                            0 <= t < surrounding@.len() ==> (#[trigger] surrounding@[t])
                                < self.spec_field().spec_size() && in_neighborhood(
                                w,
                                ind as int,
                                surrounding@[t] as int,
                            ),
                        forall|c: u32|
                            c < self.spec_field().spec_size() && in_neighborhood(
                                w,
                                ind as int,
                                c as int,
                            ) ==> #[trigger] surrounding@.contains(c),
                        forall|t: int|
                            0 <= t < k ==> ((#[trigger] self@[surrounding@[t] as int]).marked
                                || self@[surrounding@[t] as int].revealed),
                        forall|j: int|
                            0 <= j < size ==> only_flood_changes(old(self)@, self@, j),
                    decreases surrounding@.len() - k,
                {
                    let id = surrounding[k];
                    if !self.field.marked(id) {
                        let ghost pre = self@;
                        match self.field.uncover(id) {
                            Content::Mine(_) => {
                                proof {
                                    assert(only_flood_changes(old(self)@, pre, id as int));
                                    assert(old(self)@[id as int].content is Mine && !old(self)@[id as int].marked);
                                }
                                self.field.set_killer(id);
                                self.field.reveal_all();
                                self.quit = true;
                                proof {
                                    assert(in_neighborhood(w, ind as int, id as int)
                                        && self@[id as int].content == Content::Mine(true));
                                }
                                return ChordResult::Death;
                            },
                            Content::Blank => {
                                let ghost mid = self@;
                                self.field.chain_reveal(id);
                                proof {
                                    assert forall|t: int| 0 <= t <= k implies ((#[trigger] self@[
                                        surrounding@[t] as int]).marked || self@[surrounding@[t] as int].revealed) by {
                                        assert(only_flood_changes(mid, self@, surrounding@[t] as int));
                                    }
                                    assert forall|j: int|
                                        0 <= j < size implies only_flood_changes(
                                        old(self)@,
                                        self@,
                                        j,
                                    ) by {
                                        assert(only_flood_changes(old(self)@, pre, j));
                                        assert(only_flood_changes(mid, self@, j));
                                    }
                                }
                            },
                            _ => {
                                proof {
                                    assert forall|j: int|
                                        0 <= j < size implies only_flood_changes(
                                        old(self)@,
                                        self@,
                                        j,
                                    ) by {
                                        assert(only_flood_changes(old(self)@, pre, j));
                                    }
                                }
                            },
                        }
                    }
                    k = k + 1;
                }
                proof {
                    assert forall|j: int|
                        0 <= j < size && in_neighborhood(w, ind as int, j) implies (self@[j].marked
                        || self@[j].revealed) by {
                        assert(surrounding@.contains(j as u32));
                        let t = choose|t: int|
                            0 <= t < surrounding@.len() && surrounding@[t] == j as u32;
                        assert(self@[surrounding@[t] as int].marked || self@[surrounding@[t] as int].revealed);
                    }
                }
                ChordResult::Success
            } else {
                ChordResult::Failed
            }
        } else {
            ChordResult::Failed
        }
    }

    /// The game is won exactly when it was not forfeited or lost and the
    /// field's victory predicate holds.
    pub fn is_win(&self) -> (r: bool)
        ensures
            r == self.spec_is_win(),
    {
        if self.quit {
            false
        } else {
            self.field.is_victory()
        }
    }

    /// Forfeits: the game ends as a loss and the whole board is shown.
    pub fn quit(&mut self)
        requires
            old(self).wf(),
        ensures
            final(self).wf(),
            Field::same_config(old(self).spec_field(), final(self).spec_field()),
            final(self).spec_quit(),
            !final(self).spec_is_win(),
            final(self).spec_win_points() == old(self).spec_win_points(),
            final(self).spec_lose_points() == old(self).spec_lose_points(),
            final(self)@.len() == old(self)@.len(),
            forall|j: int|
                0 <= j < old(self)@.len() ==> final(self)@[j] == (Cell {
                    revealed: true,
                    ..old(self)@[j]
                }),
    {
        self.quit = true;
        self.field.reveal_all();
    }

    /// Starts the same board configuration over: all cell state cleared,
    /// mines to be placed again on the next reveal, the game no longer
    /// terminal; the reward tiers stay. This is the one way out of a lost
    /// or forfeited game.
    pub fn restart(&mut self)
        requires
            old(self).wf(),
        ensures
            final(self).wf(),
            final(self).spec_field().counts_exact(),
            Field::same_config(old(self).spec_field(), final(self).spec_field()),
            !final(self).spec_quit(),
            final(self).spec_win_points() == old(self).spec_win_points(),
            final(self).spec_lose_points() == old(self).spec_lose_points(),
            final(self).spec_field().spec_need_regen(),
            forall|j: int| 0 <= j < final(self)@.len() ==> final(self)@[j] == Cell::spec_empty(),
    {
        self.quit = false;
        self.field.restart();
    }

    /// Reads one cell's flags, for a renderer.
    pub fn cell_at(&self, i: u32) -> (r: ReturnCell)
        requires
            self.wf(),
            i < self.spec_field().spec_size(),
        ensures
            r == (ReturnCell { revealed: self@[i as int].revealed, marked: self@[i as int].marked }),
    {
        ReturnCell { revealed: self.field.revealed(i), marked: self.field.marked(i) }
    }

    /// Reads one cell's content, for a renderer.
    pub fn content_at(&self, i: u32) -> (r: Content)
        requires
            self.wf(),
            i < self.spec_field().spec_size(),
        ensures
            r == self@[i as int].content,
    {
        self.field.get_content(i)
    }
}

} // verus!
