//! The minesweeper grid: cells, deferred mine placement, adjacency counts,
//! reveal and flood-fill.

use vstd::prelude::*;
use vstd::arithmetic::mul::lemma_mul_inequality;
use vstd::multiset::Multiset;
use rand::rngs::StdRng;
use crate::minesweeper::common::MoveDestination;
use crate::minesweeper::game::ReturnCell;
use crate::rng::shuffle_cells;

verus! {

/// What a cell holds once the field is generated: a count of adjacent
/// mines (1..=8), a mine (whose flag records that it ended the game), or
/// nothing.
#[derive(PartialEq, Eq, Structural, Clone, Copy, Debug)]
pub enum Content {
    Number(u8),
    Mine(bool),
    Blank,
}

/// One cell of the field.
#[derive(PartialEq, Eq, Structural, Clone, Copy, Debug)]
pub struct Cell {
    pub content: Content,
    pub revealed: bool,
    pub marked: bool,
}

impl Cell {
    /// A covered cell with nothing in it.
    pub open spec fn spec_empty() -> Cell {
        Cell { content: Content::Blank, revealed: false, marked: false }
    }

    /// A covered cell holding an untriggered mine.
    pub open spec fn spec_mined() -> Cell {
        Cell { content: Content::Mine(false), revealed: false, marked: false }
    }

    pub fn create_empty() -> (r: Cell)
        ensures
            r == Cell::spec_empty(),
    {
        Cell { content: Content::Blank, revealed: false, marked: false }
    }

    pub fn create_with_mine() -> (r: Cell)
        ensures
            r == Cell::spec_mined(),
    {
        Cell { content: Content::Mine(false), revealed: false, marked: false }
    }

    /// Returns the cell to its initial covered, empty state.
    pub fn clear(&mut self)
        ensures
            *final(self) == (Cell::spec_empty()),
    {
        self.content = Content::Blank;
        self.revealed = false;
        self.marked = false;
    }

    /// Uncovers the cell and hands back its content.
    pub fn uncover(&mut self) -> (r: Content)
        ensures
            *final(self) == (Cell { revealed: true, ..*old(self) }),
            r == old(self).content,
    {
        self.revealed = true;
        self.content
    }

    /// Flips the flag on the cell.
    pub fn toggle_mark(&mut self)
        ensures
            *final(self) == (Cell { marked: !old(self).marked, ..*old(self) }),
    {
        self.marked = !self.marked;
    }

    pub fn content(&self) -> (r: Content)
        ensures
            r == self.content,
    {
        self.content
    }

    /// The two flags a renderer needs, without the content.
    pub fn to_return_cell(&self) -> (r: ReturnCell)
        ensures
            r == (ReturnCell { revealed: self.revealed, marked: self.marked }),
    {
        ReturnCell { revealed: self.revealed, marked: self.marked }
    }
}

/// The victory predicate means what it says: with exact counts, the
/// opened total matches the number total exactly when every number cell
/// on the board is revealed; mines never need to be revealed or flagged.
pub proof fn lemma_victory_means_all_numbers_open(f: Field)
    requires
        f.wf(),
        f.counts_exact(),
    ensures
        (f.spec_numbers_total() == f.spec_numbers_opened()) <==> (forall|j: int|
            0 <= j < f@.len() && (#[trigger] f@[j]).content is Number ==> f@[j].revealed),
{
    let size = f.spec_size() as int;
    if f.spec_numbers_total() == f.spec_numbers_opened() {
        lemma_count_eq_pointwise(f@, size, CellTest::IsOpenNumber, CellTest::IsNumber);
    }
    if forall|j: int| 0 <= j < f@.len() && (#[trigger] f@[j]).content is Number ==> f@[j].revealed {
        assert forall|j: int|
            0 <= j < size implies test_cell(CellTest::IsOpenNumber, f@[j]) == test_cell(
            CellTest::IsNumber,
            f@[j],
        ) by {
            if f@[j].content is Number {
                assert(f@[j].revealed);
            }
        }
        lemma_count_testwise_cross(f@, size, CellTest::IsOpenNumber, CellTest::IsNumber);
    }
}

/// Two tests that agree on every cell of a sequence count the same.
proof fn lemma_count_testwise_cross(s: Seq<Cell>, n: int, t1: CellTest, t2: CellTest)
    requires
        forall|i: int| 0 <= i < n ==> test_cell(t1, s[i]) == test_cell(t2, s[i]),
    ensures
        count_cells(s, n, t1) == count_cells(s, n, t2),
    decreases n,
{
    if n > 0 {
        lemma_count_testwise_cross(s, n - 1, t1, t2);
    }
}

/// The cell properties the field keeps count of.
#[derive(PartialEq, Eq, Structural, Clone, Copy, Debug)]
pub enum CellTest {
    IsNumber,
    IsOpenNumber,
    IsMine,
    IsMarked,
    IsRevealed,
}

pub open spec fn test_cell(t: CellTest, c: Cell) -> bool {
    match t {
        CellTest::IsNumber => c.content is Number,
        CellTest::IsOpenNumber => c.content is Number && c.revealed,
        CellTest::IsMine => c.content is Mine,
        CellTest::IsMarked => c.marked,
        CellTest::IsRevealed => c.revealed,
    }
}

/// How many of the first `n` cells of `s` pass the test.
pub open spec fn count_cells(s: Seq<Cell>, n: int, t: CellTest) -> int
    decreases n,
{
    if n <= 0 {
        0
    } else {
        count_cells(s, n - 1, t) + if test_cell(t, s[n - 1]) {
            1int
        } else {
            0int
        }
    }
}

pub proof fn lemma_count_bounds(s: Seq<Cell>, n: int, t: CellTest)
    ensures
        0 <= count_cells(s, n, t) <= (if n <= 0 {
            0int
        } else {
            n
        }),
    decreases n,
{
    if n > 0 {
        lemma_count_bounds(s, n - 1, t);
    }
}

/// Replacing one cell moves the count by the difference of the old and
/// new cell's test, and only when the cell lies below `n`.
pub proof fn lemma_count_update(s: Seq<Cell>, n: int, j: int, c: Cell, t: CellTest)
    requires
        n <= s.len(),
        0 <= j < s.len(),
    ensures
        j < n ==> count_cells(s.update(j, c), n, t) == count_cells(s, n, t) + (if test_cell(t, c) {
            1int
        } else {
            0int
        }) - (if test_cell(t, s[j]) {
            1int
        } else {
            0int
        }),
        j >= n ==> count_cells(s.update(j, c), n, t) == count_cells(s, n, t),
    decreases n,
{
    if n > 0 {
        lemma_count_update(s, n - 1, j, c, t);
    }
}

/// Counts only read the first `n` cells.
pub proof fn lemma_count_congruence(s1: Seq<Cell>, s2: Seq<Cell>, n: int, t: CellTest)
    requires
        forall|i: int| 0 <= i < n ==> s1[i] == s2[i],
    ensures
        count_cells(s1, n, t) == count_cells(s2, n, t),
    decreases n,
{
    if n > 0 {
        lemma_count_congruence(s1, s2, n - 1, t);
    }
}

/// A test that implies another never counts higher.
pub proof fn lemma_count_le(s: Seq<Cell>, n: int, t1: CellTest, t2: CellTest)
    requires
        forall|c: Cell| test_cell(t1, c) ==> test_cell(t2, c),
    ensures
        count_cells(s, n, t1) <= count_cells(s, n, t2),
    decreases n,
{
    if n > 0 {
        lemma_count_le(s, n - 1, t1, t2);
    }
}

/// With a witness passing the wider test only, the narrower count stays
/// strictly below the wider one.
pub proof fn lemma_count_strict(s: Seq<Cell>, n: int, j: int, t1: CellTest, t2: CellTest)
    requires
        forall|c: Cell| test_cell(t1, c) ==> test_cell(t2, c),
        0 <= j < n,
        test_cell(t2, s[j]),
        !test_cell(t1, s[j]),
    ensures
        count_cells(s, n, t1) <= count_cells(s, n, t2) - 1,
    decreases n,
{
    if j == n - 1 {
        lemma_count_le(s, n - 1, t1, t2);
    } else {
        lemma_count_strict(s, n - 1, j, t1, t2);
    }
}

/// A count of zero means no cell passes, and the other way round.
pub proof fn lemma_count_zero(s: Seq<Cell>, n: int, t: CellTest)
    ensures
        count_cells(s, n, t) == 0 <==> (forall|i: int| 0 <= i < n ==> !test_cell(t, s[i])),
    decreases n,
{
    if n > 0 {
        lemma_count_zero(s, n - 1, t);
        lemma_count_bounds(s, n - 1, t);
    }
}

/// Equal counts of a narrower and a wider test force every cell passing
/// the wider test to pass the narrower one.
pub proof fn lemma_count_eq_pointwise(s: Seq<Cell>, n: int, t1: CellTest, t2: CellTest)
    requires
        forall|c: Cell| test_cell(t1, c) ==> test_cell(t2, c),
        count_cells(s, n, t1) == count_cells(s, n, t2),
    ensures
        forall|i: int| 0 <= i < n && test_cell(t2, s[i]) ==> test_cell(t1, s[i]),
{
    assert forall|i: int| 0 <= i < n && test_cell(t2, s[i]) implies test_cell(t1, s[i]) by {
        if !test_cell(t1, s[i]) {
            lemma_count_strict(s, n, i, t1, t2);
        }
    }
}

/// The cells `j` and `c` share a 3x3 box on a grid `w` cells wide: their
/// columns and rows differ by at most one.
pub open spec fn in_neighborhood(w: int, c: int, j: int) -> bool {
    &&& c % w - 1 <= j % w <= c % w + 1
    &&& c / w - 1 <= j / w <= c / w + 1
}

/// How many of the cells `0..n` lie in the 3x3 box around `c`.
pub open spec fn nbhd_count(w: int, c: int, n: int) -> int
    decreases n,
{
    if n <= 0 {
        0
    } else {
        nbhd_count(w, c, n - 1) + if in_neighborhood(w, c, n - 1) {
            1int
        } else {
            0int
        }
    }
}

pub proof fn lemma_nbhd_count_range(w: int, c: int, n1: int, n2: int)
    requires
        0 <= n1 <= n2,
    ensures
        0 <= nbhd_count(w, c, n2) - nbhd_count(w, c, n1) <= n2 - n1,
    decreases n2 - n1,
{
    if n1 < n2 {
        lemma_nbhd_count_range(w, c, n1, n2 - 1);
    }
}

/// Whether a mine sits at `j`; indices off the grid hold none.
pub open spec fn is_mine_at(s: Seq<Cell>, j: int) -> bool {
    0 <= j < s.len() && s[j].content is Mine
}

/// How many mines the up-to-eight neighbors of `i` hold, on a grid `w`
/// cells wide stored row-major: the row above and below always count,
/// the left and right columns only when `i` is not on that edge.
pub open spec fn mine_adj_count(s: Seq<Cell>, w: int, i: int) -> int {
    (if is_mine_at(s, i - w) {
        1int
    } else {
        0int
    }) + (if is_mine_at(s, i + w) {
        1int
    } else {
        0int
    }) + (if i % w > 0 {
        (if is_mine_at(s, i - w - 1) {
            1int
        } else {
            0int
        }) + (if is_mine_at(s, i - 1) {
            1int
        } else {
            0int
        }) + (if is_mine_at(s, i + w - 1) {
            1int
        } else {
            0int
        })
    } else {
        0int
    }) + (if i % w < w - 1 {
        (if is_mine_at(s, i - w + 1) {
            1int
        } else {
            0int
        }) + (if is_mine_at(s, i + 1) {
            1int
        } else {
            0int
        }) + (if is_mine_at(s, i + w + 1) {
            1int
        } else {
            0int
        })
    } else {
        0int
    })
}

/// The width-by-height cell grid: mines are placed on the first reveal,
/// numbers record adjacent mines, and a cursor selects one cell.
pub struct Field {
    cells: Vec<Cell>,
    width: u32,
    height: u32,
    mines: u32,
    size: u32,
    selected_x: u32,
    selected_y: u32,
    numbers_total: u32,
    numbers_opened: u32,
    need_regen: bool,
    rng: StdRng,
}

impl View for Field {
    type V = Seq<Cell>;

    closed spec fn view(&self) -> Seq<Cell> {
        self.cells@
    }
}

impl Field {
    pub closed spec fn spec_width(self) -> u32 {
        self.width
    }

    pub closed spec fn spec_height(self) -> u32 {
        self.height
    }

    pub closed spec fn spec_mines(self) -> u32 {
        self.mines
    }

    pub closed spec fn spec_size(self) -> u32 {
        self.size
    }

    pub closed spec fn spec_x(self) -> u32 {
        self.selected_x
    }

    pub closed spec fn spec_y(self) -> u32 {
        self.selected_y
    }

    pub closed spec fn spec_numbers_total(self) -> u32 {
        self.numbers_total
    }

    pub closed spec fn spec_numbers_opened(self) -> u32 {
        self.numbers_opened
    }

    pub closed spec fn spec_need_regen(self) -> bool {
        self.need_regen
    }

    /// The structural part of well-formedness: the grid dimensions match
    /// the cell store.
    pub open spec fn grid_wf(self) -> bool {
        &&& 1 <= self.spec_width()
        &&& 1 <= self.spec_height()
        &&& self.spec_size() == self.spec_width() * self.spec_height()
        &&& self@.len() == self.spec_size()
    }

    /// The field's bookkeeping is sound: the grid dimensions match the
    /// cell store, the cursor is on the grid, the number-cell total is
    /// exact, and the opened count never overshoots the open numbers.
    pub open spec fn wf(self) -> bool {
        &&& self.grid_wf()
        &&& self.spec_x() < self.spec_width()
        &&& self.spec_y() < self.spec_height()
        &&& self.spec_numbers_total() == count_cells(
            self@,
            self.spec_size() as int,
            CellTest::IsNumber,
        )
        &&& self.spec_numbers_opened() <= count_cells(
            self@,
            self.spec_size() as int,
            CellTest::IsOpenNumber,
        )
    }

    /// The opened-numbers counter is exact, as it is throughout normal
    /// play; only `reveal_all` (death or forfeit) leaves it behind.
    pub open spec fn counts_exact(self) -> bool {
        self.spec_numbers_opened() == count_cells(
            self@,
            self.spec_size() as int,
            CellTest::IsOpenNumber,
        )
    }

    /// The grid shape and mine budget of two field states agree.
    pub open spec fn same_config(a: Field, b: Field) -> bool {
        &&& a.spec_width() == b.spec_width()
        &&& a.spec_height() == b.spec_height()
        &&& a.spec_mines() == b.spec_mines()
        &&& a.spec_size() == b.spec_size()
    }

    /// Fresh covered empty cells, the cursor at the center, generation
    /// still pending.
    fn reinit_vec(&mut self)
        requires
            1 <= old(self).width,
            1 <= old(self).height,
            old(self).width * old(self).height <= u32::MAX,
        ensures
            *final(self) == (Field {
                cells: final(self).cells,
                size: final(self).size,
                selected_x: final(self).selected_x,
                selected_y: final(self).selected_y,
                ..*old(self)
            }),
            final(self).size == old(self).width * old(self).height,
            final(self).cells@.len() == final(self).size,
            forall|i: int|
                0 <= i < final(self).cells@.len() ==> final(self).cells@[i] == Cell::spec_empty(),
            final(self).selected_x == old(self).width / 2,
            final(self).selected_y == old(self).height / 2,
    {
        self.cells.clear();
        self.size = self.width * self.height;
        let mut i: u32 = 0;
        while i < self.size
            invariant
                i <= self.size,
                self.cells@.len() == i,
                forall|j: int| 0 <= j < i ==> self.cells@[j] == Cell::spec_empty(),
                self.size == old(self).width * old(self).height,
                self.width == old(self).width,
                self.height == old(self).height,
                self.mines == old(self).mines,
                self.numbers_total == old(self).numbers_total,
                self.numbers_opened == old(self).numbers_opened,
                self.need_regen == old(self).need_regen,
                self.rng == old(self).rng,
            decreases self.size - i,
        {
            self.cells.push(Cell::create_empty());
            i = i + 1;
        }
        self.selected_x = self.width / 2;
        self.selected_y = self.height / 2;
    }

    /// A fresh field: covered empty cells, no mines placed yet — they are
    /// shuffled in at the first reveal — and the cursor at the center.
    pub fn new(width: u32, height: u32, mines: u32, rng: StdRng) -> (r: Field)
        requires
            1 <= width,
            1 <= height,
            width * height <= u32::MAX,
        ensures
            r.wf(),
            r.counts_exact(),
            r.spec_width() == width,
            r.spec_height() == height,
            r.spec_mines() == mines,
            r.spec_size() == width * height,
            r.spec_x() == width / 2,
            r.spec_y() == height / 2,
            r.spec_numbers_total() == 0,
            r.spec_numbers_opened() == 0,
            r.spec_need_regen(),
            forall|i: int| 0 <= i < r@.len() ==> r@[i] == Cell::spec_empty(),
    {
        let mut field = Field {
            width,
            height,
            cells: Vec::new(),
            mines,
            size: width * height,
            selected_x: width / 2,
            selected_y: height / 2,
            numbers_total: 0,
            numbers_opened: 0,
            need_regen: true,
            rng,
        };
        field.reinit_vec();
        proof {
            lemma_count_zero(field.cells@, field.size as int, CellTest::IsNumber);
            lemma_count_zero(field.cells@, field.size as int, CellTest::IsOpenNumber);
        }
        field
    }

    /// Returns the field to its pending state: covered empty cells, the
    /// cursor recentered, mines to be placed again on the next reveal.
    pub fn restart(&mut self)
        requires
            old(self).wf(),
        ensures
            final(self).wf(),
            final(self).counts_exact(),
            Field::same_config(*old(self), *final(self)),
            final(self).spec_need_regen(),
            final(self).spec_numbers_total() == 0,
            final(self).spec_numbers_opened() == 0,
            final(self).spec_x() == final(self).spec_width() / 2,
            final(self).spec_y() == final(self).spec_height() / 2,
            forall|i: int| 0 <= i < final(self)@.len() ==> final(self)@[i] == Cell::spec_empty(),
    {
        self.need_regen = true;
        self.numbers_total = 0;
        self.numbers_opened = 0;
        self.reinit_vec();
        proof {
            lemma_count_zero(self.cells@, self.size as int, CellTest::IsNumber);
            lemma_count_zero(self.cells@, self.size as int, CellTest::IsOpenNumber);
        }
    }

    pub fn get_width(&self) -> (r: u32)
        ensures
            r == self.spec_width(),
    {
        self.width
    }

    pub fn get_height(&self) -> (r: u32)
        ensures
            r == self.spec_height(),
    {
        self.height
    }

    pub fn get_size(&self) -> (r: u32)
        ensures
            r == self.spec_size(),
    {
        self.size
    }

    pub fn total_mines(&self) -> (r: u32)
        ensures
            r == self.spec_mines(),
    {
        self.mines
    }

    pub fn get_x(&self) -> (r: u32)
        ensures
            r == self.spec_x(),
    {
        self.selected_x
    }

    pub fn get_y(&self) -> (r: u32)
        ensures
            r == self.spec_y(),
    {
        self.selected_y
    }

    /// The index of the cell at column `x`, row `y`.
    pub fn get_cell_index(&self, x: u32, y: u32) -> (r: u32)
        requires
            self.wf(),
            x < self.spec_width(),
            y < self.spec_height(),
        ensures
            r == x + y * self.spec_width(),
            r < self.spec_size(),
    {
        proof {
            let w = self.width as int;
            let h = self.height as int;
            lemma_mul_inequality(y as int, h - 1, w);
            assert((h - 1) * w == h * w - w) by (nonlinear_arith);
        }
        x + y * self.width
    }

    /// The column and row of the cell at `ind`.
    pub fn get_coord(&self, ind: u32) -> (r: (u32, u32))
        requires
            self.wf(),
        ensures
            r.0 == ind % self.spec_width(),
            r.1 == ind / self.spec_width(),
    {
        (ind % self.width, ind / self.width)
    }

    pub fn revealed(&self, i: u32) -> (r: bool)
        requires
            self.wf(),
            i < self.spec_size(),
        ensures
            r == self@[i as int].revealed,
    {
        self.cells[i as usize].revealed
    }

    pub fn marked(&self, i: u32) -> (r: bool)
        requires
            self.wf(),
            i < self.spec_size(),
        ensures
            r == self@[i as int].marked,
    {
        self.cells[i as usize].marked
    }

    pub fn get_content(&self, i: u32) -> (r: Content)
        requires
            self.wf(),
            i < self.spec_size(),
        ensures
            r == self@[i as int].content,
    {
        self.cells[i as usize].content
    }

    /// Records which mine ended the game.
    pub fn set_killer(&mut self, i: u32)
        requires
            old(self).wf(),
            i < old(self).spec_size(),
            old(self)@[i as int].content is Mine,
        ensures
            final(self).wf(),
            old(self).counts_exact() ==> final(self).counts_exact(),
            Field::same_config(*old(self), *final(self)),
            final(self).spec_x() == old(self).spec_x(),
            final(self).spec_y() == old(self).spec_y(),
            final(self).spec_need_regen() == old(self).spec_need_regen(),
            final(self).spec_numbers_total() == old(self).spec_numbers_total(),
            final(self).spec_numbers_opened() == old(self).spec_numbers_opened(),
            final(self)@ == old(self)@.update(
                i as int,
                (Cell { content: Content::Mine(true), ..old(self)@[i as int] }),
            ),
    {
        let ghost olds = self.cells@;
        let cell = Cell {
            content: Content::Mine(true),
            revealed: self.cells[i as usize].revealed,
            marked: self.cells[i as usize].marked,
        };
        self.cells[i as usize] = cell;
        proof {
            lemma_count_update(olds, self.size as int, i as int, cell, CellTest::IsNumber);
            lemma_count_update(olds, self.size as int, i as int, cell, CellTest::IsOpenNumber);
        }
    }

    /// Uncovers the cell at `i` and hands back its content; a number seen
    /// for the first time is added to the opened count.
    pub fn uncover(&mut self, i: u32) -> (r: Content)
        requires
            old(self).wf(),
            i < old(self).spec_size(),
        ensures
            final(self).wf(),
            old(self).counts_exact() ==> final(self).counts_exact(),
            Field::same_config(*old(self), *final(self)),
            final(self).spec_x() == old(self).spec_x(),
            final(self).spec_y() == old(self).spec_y(),
            final(self).spec_need_regen() == old(self).spec_need_regen(),
            final(self).spec_numbers_total() == old(self).spec_numbers_total(),
            final(self)@ == old(self)@.update(
                i as int,
                (Cell { revealed: true, ..old(self)@[i as int] }),
            ),
            r == old(self)@[i as int].content,
            final(self).spec_numbers_opened() == old(self).spec_numbers_opened() + (if !old(
                self,
            )@[i as int].revealed && old(self)@[i as int].content is Number {
                1int
            } else {
                0int
            }),
    {
        let ghost olds = self.cells@;
        let old_cell = self.cells[i as usize];
        let cell = Cell { revealed: true, ..old_cell };
        self.cells[i as usize] = cell;
        proof {
            lemma_count_update(olds, self.size as int, i as int, cell, CellTest::IsNumber);
            lemma_count_update(olds, self.size as int, i as int, cell, CellTest::IsOpenNumber);
            if !old_cell.revealed && old_cell.content is Number {
                lemma_count_strict(
                    olds,
                    self.size as int,
                    i as int,
                    CellTest::IsOpenNumber,
                    CellTest::IsNumber,
                );
            }
        }
        if !old_cell.revealed {
            if let Content::Number(_n) = old_cell.content {
                self.numbers_opened = self.numbers_opened + 1;
            }
        }
        old_cell.content
    }

    /// Flips the flag on an uncovered cell; a revealed cell cannot be
    /// flagged or unflagged, so the call fails and changes nothing.
    pub fn toggle_mark(&mut self, i: u32) -> (r: bool)
        requires
            old(self).wf(),
            i < old(self).spec_size(),
        ensures
            final(self).wf(),
            old(self).counts_exact() ==> final(self).counts_exact(),
            Field::same_config(*old(self), *final(self)),
            final(self).spec_x() == old(self).spec_x(),
            final(self).spec_y() == old(self).spec_y(),
            final(self).spec_need_regen() == old(self).spec_need_regen(),
            final(self).spec_numbers_total() == old(self).spec_numbers_total(),
            final(self).spec_numbers_opened() == old(self).spec_numbers_opened(),
            r == !old(self)@[i as int].revealed,
            old(self)@[i as int].revealed ==> final(self)@ == old(self)@,
            !old(self)@[i as int].revealed ==> final(self)@ == old(self)@.update(
                i as int,
                (Cell { marked: !old(self)@[i as int].marked, ..old(self)@[i as int] }),
            ),
    {
        let ghost olds = self.cells@;
        let old_cell = self.cells[i as usize];
        if old_cell.revealed {
            false
        } else {
            let cell = Cell { marked: !old_cell.marked, ..old_cell };
            self.cells[i as usize] = cell;
            proof {
                lemma_count_update(olds, self.size as int, i as int, cell, CellTest::IsNumber);
                lemma_count_update(olds, self.size as int, i as int, cell, CellTest::IsOpenNumber);
            }
            true
        }
    }

    /// Uncovers the whole board, as done on death or forfeit. The opened
    /// counter is left as it is, so the victory predicate keeps meaning
    /// what was opened in play.
    pub fn reveal_all(&mut self)
        requires
            old(self).wf(),
        ensures
            final(self).wf(),
            Field::same_config(*old(self), *final(self)),
            final(self).spec_x() == old(self).spec_x(),
            final(self).spec_y() == old(self).spec_y(),
            final(self).spec_need_regen() == old(self).spec_need_regen(),
            final(self).spec_numbers_total() == old(self).spec_numbers_total(),
            final(self).spec_numbers_opened() == old(self).spec_numbers_opened(),
            final(self)@.len() == old(self)@.len(),
            forall|j: int|
                0 <= j < old(self)@.len() ==> final(self)@[j] == (Cell {
                    revealed: true,
                    ..old(self)@[j]
                }),
    {
        let mut i: u32 = 0;
        while i < self.size
            invariant
                old(self).wf(),
                i <= self.size,
                self.size == old(self).size,
                self.width == old(self).width,
                self.height == old(self).height,
                self.mines == old(self).mines,
                self.selected_x == old(self).selected_x,
                self.selected_y == old(self).selected_y,
                self.need_regen == old(self).need_regen,
                self.numbers_total == old(self).numbers_total,
                self.numbers_opened == old(self).numbers_opened,
                self.rng == old(self).rng,
                self.cells@.len() == old(self).cells@.len(),
                forall|j: int|
                    0 <= j < i ==> self.cells@[j] == (Cell { revealed: true, ..old(self).cells@[j] }),
                forall|j: int| i <= j < self.cells@.len() ==> self.cells@[j] == old(self).cells@[j],
                self.numbers_total == count_cells(self.cells@, self.size as int, CellTest::IsNumber),
                self.numbers_opened <= count_cells(
                    self.cells@,
                    self.size as int,
                    CellTest::IsOpenNumber,
                ),
            decreases self.size - i,
        {
            let ghost olds = self.cells@;
            let cell = Cell { revealed: true, ..self.cells[i as usize] };
            self.cells[i as usize] = cell;
            proof {
                lemma_count_update(olds, self.size as int, i as int, cell, CellTest::IsNumber);
                lemma_count_update(olds, self.size as int, i as int, cell, CellTest::IsOpenNumber);
            }
            i = i + 1;
        }
    }

    /// How many cells are flagged.
    pub fn count_marked(&self) -> (r: u32)
        requires
            self.wf(),
        ensures
            r == count_cells(self@, self.spec_size() as int, CellTest::IsMarked),
    {
        let mut acc: u32 = 0;
        let mut i: u32 = 0;
        while i < self.size
            invariant
                self.wf(),
                i <= self.size,
                acc == count_cells(self@, i as int, CellTest::IsMarked),
            decreases self.size - i,
        {
            proof {
                lemma_count_bounds(self@, i as int, CellTest::IsMarked);
            }
            if self.cells[i as usize].marked {
                acc = acc + 1;
            }
            i = i + 1;
        }
        acc
    }

    /// The game is won exactly when every number cell opened in play has
    /// been counted: mines need never be flagged or revealed.
    pub fn is_victory(&self) -> (r: bool)
        ensures
            r == (self.spec_numbers_total() == self.spec_numbers_opened()),
    {
        self.numbers_total == self.numbers_opened
    }

    /// Moves the cursor one cell, stopping at the edges of the grid.
    pub fn move_selection(&mut self, dest: MoveDestination)
        requires
            old(self).wf(),
        ensures
            final(self).wf(),
            final(self)@ == old(self)@,
            Field::same_config(*old(self), *final(self)),
            final(self).spec_need_regen() == old(self).spec_need_regen(),
            final(self).spec_numbers_total() == old(self).spec_numbers_total(),
            final(self).spec_numbers_opened() == old(self).spec_numbers_opened(),
            dest is Up ==> final(self).spec_y() == (if old(self).spec_y() > 0 {
                (old(self).spec_y() - 1) as u32
            } else {
                0u32
            }) && final(self).spec_x() == old(self).spec_x(),
            dest is Down ==> final(self).spec_y() == (if old(self).spec_y() + 1 < old(
                self,
            ).spec_height() {
                (old(self).spec_y() + 1) as u32
            } else {
                old(self).spec_y()
            }) && final(self).spec_x() == old(self).spec_x(),
            dest is Left ==> final(self).spec_x() == (if old(self).spec_x() > 0 {
                (old(self).spec_x() - 1) as u32
            } else {
                0u32
            }) && final(self).spec_y() == old(self).spec_y(),
            dest is Right ==> final(self).spec_x() == (if old(self).spec_x() + 1 < old(
                self,
            ).spec_width() {
                (old(self).spec_x() + 1) as u32
            } else {
                old(self).spec_x()
            }) && final(self).spec_y() == old(self).spec_y(),
    {
        match dest {
            MoveDestination::Up => {
                if self.selected_y > 0 {
                    self.selected_y = self.selected_y - 1;
                }
            },
            MoveDestination::Down => {
                if self.selected_y < self.height - 1 {
                    self.selected_y = self.selected_y + 1;
                }
            },
            MoveDestination::Left => {
                if self.selected_x > 0 {
                    self.selected_x = self.selected_x - 1;
                }
            },
            MoveDestination::Right => {
                if self.selected_x < self.width - 1 {
                    self.selected_x = self.selected_x + 1;
                }
            },
        }
    }

    /// The index of the cell under the cursor.
    pub fn get_selected_ind(&self) -> (r: u32)
        requires
            self.wf(),
        ensures
            r == self.spec_x() + self.spec_y() * self.spec_width(),
            r < self.spec_size(),
    {
        self.get_cell_index(self.selected_x, self.selected_y)
    }

    /// The cell under the cursor.
    pub fn get_selected_cell(&self) -> (r: Cell)
        requires
            self.wf(),
        ensures
            r == self@[(self.spec_x() + self.spec_y() * self.spec_width()) as int],
    {
        let ind = self.get_selected_ind();
        self.cells[ind as usize]
    }

    /// Whether `j` lies in the 3x3 box around `c`.
    fn in_nbhd(&self, c: u32, j: u32) -> (r: bool)
        requires
            1 <= self.spec_width(),
        ensures
            r == in_neighborhood(self.spec_width() as int, c as int, j as int),
    {
        let w = self.width;
        let cx = (c % w) as u64;
        let cy = (c / w) as u64;
        let jx = (j % w) as u64;
        let jy = (j / w) as u64;
        jx + 1 >= cx && jx <= cx + 1 && jy + 1 >= cy && jy <= cy + 1
    }

    /// The indices of the up-to-nine cells in the 3x3 box around `ind`,
    /// in ascending order; edge and corner cells have smaller boxes.
    pub fn get_near_cells_ids(&self, ind: u32) -> (r: Vec<u32>)
        requires
            self.wf(),
            ind < self.spec_size(),
        ensures
            r@.len() == nbhd_count(self.spec_width() as int, ind as int, self.spec_size() as int),
            forall|k: int|
                0 <= k < r@.len() ==> (#[trigger] r@[k]) < self.spec_size() && in_neighborhood(
                    self.spec_width() as int,
                    ind as int,
                    r@[k] as int,
                ),
            forall|k1: int, k2: int| 0 <= k1 < k2 < r@.len() ==> r@[k1] < r@[k2],
            forall|c: u32|
                c < self.spec_size() && in_neighborhood(
                    self.spec_width() as int,
                    ind as int,
                    c as int,
                ) ==> #[trigger] r@.contains(c),
    {
        let ghost w = self.spec_width() as int;
        let mut r: Vec<u32> = Vec::new();
        let mut j: u32 = 0;
        while j < self.size
            invariant
                self.wf(),
                ind < self.spec_size(),
                w == self.spec_width() as int,
                j <= self.size,
                r@.len() == nbhd_count(w, ind as int, j as int),
                forall|k: int|
                    0 <= k < r@.len() ==> (#[trigger] r@[k]) < j && in_neighborhood(
                        w,
                        ind as int,
                        r@[k] as int,
                    ),
                forall|k1: int, k2: int| 0 <= k1 < k2 < r@.len() ==> r@[k1] < r@[k2],
                forall|c: u32|
                    c < j && in_neighborhood(w, ind as int, c as int) ==> #[trigger] r@.contains(c),
            decreases self.size - j,
        {
            let ghost pre = r@;
            proof {
                lemma_nbhd_count_range(w, ind as int, 0, j as int);
            }
            if self.in_nbhd(ind, j) {
                r.push(j);
                proof {
                    assert forall|c: u32|
                        c < j + 1 && in_neighborhood(w, ind as int, c as int) implies #[trigger] r@.contains(
                        c,
                    ) by {
                        if c < j {
                            assert(pre.contains(c));
                            let k = choose|k: int| 0 <= k < pre.len() && pre[k] == c;
                            assert(r@[k] == c);
                        } else {
                            assert(r@[r@.len() - 1] == c);
                        }
                    }
                }
            }
            j = j + 1;
        }
        r
    }

    /// How many of the cells in the 3x3 box around `ind` are flagged.
    pub fn get_neighborhood_count(&self, ind: u32) -> (r: u32)
        requires
            self.wf(),
            ind < self.spec_size(),
        ensures
            r == marked_nbhd_count(
                self@,
                self.spec_width() as int,
                ind as int,
                self.spec_size() as int,
            ),
    {
        let ghost w = self.spec_width() as int;
        let mut acc: u32 = 0;
        let mut j: u32 = 0;
        while j < self.size
            invariant
                self.wf(),
                ind < self.spec_size(),
                w == self.spec_width() as int,
                j <= self.size,
                acc == marked_nbhd_count(self@, w, ind as int, j as int),
            decreases self.size - j,
        {
            proof {
                lemma_marked_nbhd_count_bounds(self@, w, ind as int, j as int);
            }
            if self.in_nbhd(ind, j) && self.cells[j as usize].marked {
                acc = acc + 1;
            }
            j = j + 1;
        }
        acc
    }

    /// Whether a mine sits at `j`.
    fn is_mine(&self, j: u32) -> (r: bool)
        requires
            self.grid_wf(),
            j < self.spec_size(),
        ensures
            r == (self@[j as int].content is Mine),
    {
        matches!(self.cells[j as usize].content, Content::Mine(_))
    }

    /// How many of the up-to-eight neighbors of `i` hold a mine.
    fn count_adj_mines(&self, i: u32) -> (ct: u8)
        requires
            self.grid_wf(),
            i < self.spec_size(),
        ensures
            ct == mine_adj_count(self@, self.spec_width() as int, i as int),
            ct <= 8,
    {
        let w = self.width;
        let size = self.size;
        let mut ct: u8 = 0;
        if i >= w && self.is_mine(i - w) {
            ct = ct + 1;
        }
        if (i as u64 + w as u64) < (size as u64) && self.is_mine(i + w) {
            ct = ct + 1;
        }
        if i % w > 0 {
            proof {
                if i == 0 {
                    vstd::arithmetic::div_mod::lemma_small_mod(0nat, w as nat);
                }
            }
            if i > w && self.is_mine(i - w - 1) {
                ct = ct + 1;
            }
            if self.is_mine(i - 1) {
                ct = ct + 1;
            }
            if (i as u64 + w as u64 - 1) < (size as u64) && self.is_mine(i + w - 1) {
                ct = ct + 1;
            }
        }
        if i % w < w - 1 {
            if i + 1 >= w && self.is_mine(i + 1 - w) {
                ct = ct + 1;
            }
            if i + 1 < size && self.is_mine(i + 1) {
                ct = ct + 1;
            }
            if (i as u64 + w as u64 + 1) < (size as u64) && self.is_mine(i + w + 1) {
                ct = ct + 1;
            }
        }
        ct
    }

    /// Returns every cell to its covered empty state and zeroes the
    /// number counts.
    fn clear(&mut self)
        requires
            old(self).wf(),
        ensures
            final(self).wf(),
            final(self).counts_exact(),
            *final(self) == (Field {
                cells: final(self).cells,
                numbers_total: 0,
                numbers_opened: 0,
                ..*old(self)
            }),
            final(self).cells@.len() == old(self).cells@.len(),
            forall|j: int|
                0 <= j < final(self).cells@.len() ==> final(self).cells@[j] == Cell::spec_empty(),
    {
        let mut i: u32 = 0;
        while i < self.size
            invariant
                old(self).wf(),
                i <= self.size,
                *self == (Field { cells: self.cells, ..*old(self) }),
                self.cells@.len() == old(self).cells@.len(),
                forall|j: int| 0 <= j < i ==> self.cells@[j] == Cell::spec_empty(),
                forall|j: int| i <= j < self.cells@.len() ==> self.cells@[j] == old(self).cells@[j],
            decreases self.size - i,
        {
            self.cells[i as usize] = Cell::create_empty();
            i = i + 1;
        }
        self.numbers_opened = 0;
        self.numbers_total = 0;
        proof {
            lemma_count_zero(self.cells@, self.size as int, CellTest::IsNumber);
            lemma_count_zero(self.cells@, self.size as int, CellTest::IsOpenNumber);
        }
    }

    /// Writes into every blank cell the count of its adjacent mines, when
    /// there are any; run once over a board of blanks and mines.
    #[verifier::loop_isolation(false)]
    fn write_numbers(&mut self)
        requires
            old(self).wf(),
            old(self).numbers_total == 0,
            old(self).numbers_opened == 0,
            forall|j: int|
                0 <= j < old(self).cells@.len() ==> !((#[trigger] old(self).cells@[j]).content
                    is Number) && !old(self).cells@[j].revealed,
        ensures
            final(self).wf(),
            final(self).counts_exact(),
            *final(self) == (Field {
                cells: final(self).cells,
                numbers_total: final(self).numbers_total,
                ..*old(self)
            }),
            final(self).cells@.len() == old(self).cells@.len(),
            forall|j: int|
                0 <= j < old(self).cells@.len() ==> final(self).cells@[j] == written_cell(
                    old(self).cells@,
                    old(self).width as int,
                    j,
                ),
    {
        let ghost olds = self.cells@;
        let ghost w = self.width as int;
        let mut i: u32 = 0;
        while i < self.size
            invariant
                i <= self.size,
                *self == (Field {
                    cells: self.cells,
                    numbers_total: self.numbers_total,
                    ..*old(self)
                }),
                self.cells@.len() == olds.len(),
                forall|j: int| i <= j < olds.len() ==> self.cells@[j] == olds[j],
                forall|j: int| 0 <= j < i ==> self.cells@[j] == written_cell(olds, w, j),
                forall|j: int|
                    0 <= j < olds.len() ==> ((#[trigger] self.cells@[j]).content is Mine <==> olds[j].content is Mine),
                self.numbers_total == count_cells(self.cells@, i as int, CellTest::IsNumber),
            decreases self.size - i,
        {
            proof {
                lemma_count_bounds(self.cells@, i as int, CellTest::IsNumber);
            }
            let ghost pre = self.cells@;
            if let Content::Blank = self.cells[i as usize].content {
                let ct = self.count_adj_mines(i);
                proof {
                    assert(mine_adj_count(self.cells@, w, i as int) == mine_adj_count(
                        olds,
                        w,
                        i as int,
                    ));
                }
                if ct > 0 {
                    let cell = Cell { content: Content::Number(ct), ..self.cells[i as usize] };
                    self.cells[i as usize] = cell;
                    proof {
                        lemma_count_update(pre, i as int, i as int, cell, CellTest::IsNumber);
                    }
                    self.numbers_total = self.numbers_total + 1;
                }
            }
            i = i + 1;
        }
        proof {
            assert forall|j: int|
                0 <= j < self.cells@.len() implies !test_cell(
                CellTest::IsOpenNumber,
                self.cells@[j],
            ) by {
                assert(self.cells@[j] == written_cell(olds, w, j));
            }
            lemma_count_zero(self.cells@, self.size as int, CellTest::IsOpenNumber);
        }
    }

    /// Clears the board and lays it out afresh for a first reveal at
    /// `cursor_ind`: the mine budget is shuffled into the cells outside
    /// the cursor's 3x3 box — as far as they can hold it — so neither the
    /// cursor nor any of its neighbors holds a mine, and every blank cell
    /// next to a mine then gets its number.
    #[verifier::loop_isolation(false)]
    #[verifier::rlimit(100)]
    pub fn reset(&mut self, cursor_ind: u32)
        requires
            old(self).wf(),
            cursor_ind < old(self).spec_size(),
        ensures
            final(self).wf(),
            final(self).counts_exact(),
            Field::same_config(*old(self), *final(self)),
            final(self).spec_x() == old(self).spec_x(),
            final(self).spec_y() == old(self).spec_y(),
            !final(self).spec_need_regen(),
            generated_for(*final(self), cursor_ind as int),
    {
        let ghost w = self.width as int;
        let ghost size = self.size as int;
        self.clear();
        let near = self.get_near_cells_ids(cursor_ind);
        let near_len = near.len();
        proof {
            lemma_nbhd_count_range(w, cursor_ind as int, 0, size);
        }
        let candidates_len: u32 = self.size - (near_len as u32);
        let mut new_cells: Vec<Cell> = Vec::new();
        let mut i: u32 = 0;
        while i < candidates_len
            invariant
                i <= candidates_len,
                new_cells@.len() == i,
                forall|k: int|
                    0 <= k < i ==> #[trigger] new_cells@[k] == (if k < self.mines {
                        Cell::spec_mined()
                    } else {
                        Cell::spec_empty()
                    }),
                count_cells(new_cells@, i as int, CellTest::IsMine) == (if i <= self.mines {
                    i as int
                } else {
                    self.mines as int
                }),
            decreases candidates_len - i,
        {
            let cell = if i < self.mines {
                Cell::create_with_mine()
            } else {
                Cell::create_empty()
            };
            let ghost pre = new_cells@;
            new_cells.push(cell);
            proof {
                lemma_count_congruence(new_cells@, pre, i as int, CellTest::IsMine);
            }
            i = i + 1;
        }
        let ghost cand = new_cells@;
        proof {
            lemma_count_two_valued(cand, CellTest::IsMine, Cell::spec_mined(), Cell::spec_empty());
        }
        shuffle_cells(&mut new_cells, &mut self.rng);
        let ghost shuf = new_cells@;
        proof {
            broadcast use vstd::seq_lib::group_to_multiset_ensures;

            assert forall|k: int|
                0 <= k < shuf.len() implies (#[trigger] shuf[k]) == Cell::spec_mined() || shuf[k]
                == Cell::spec_empty() by {
                assert(shuf.contains(shuf[k]));
                assert(cand.to_multiset().count(shuf[k]) > 0);
                assert(cand.contains(shuf[k]));
                let x = choose|x: int| 0 <= x < cand.len() && cand[x] == shuf[k];
                assert(cand[x] == shuf[k]);
            }
            lemma_count_two_valued(shuf, CellTest::IsMine, Cell::spec_mined(), Cell::spec_empty());
        }
        let mut merged: Vec<Cell> = Vec::new();
        let mut cnt: u32 = 0;
        let mut j: u32 = 0;
        while j < self.size
            invariant
                j <= self.size,
                merged@.len() == j,
                cnt as int == j - nbhd_count(w, cursor_ind as int, j as int),
                cnt <= candidates_len,
                count_cells(merged@, j as int, CellTest::IsMine) == count_cells(
                    shuf,
                    cnt as int,
                    CellTest::IsMine,
                ),
                forall|k: int|
                    0 <= k < j && in_neighborhood(w, cursor_ind as int, k) ==> (
                    #[trigger] merged@[k]) == Cell::spec_empty(),
                forall|k: int|
                    0 <= k < j ==> ((#[trigger] merged@[k]) == Cell::spec_mined() || merged@[k]
                        == Cell::spec_empty()),
            decreases self.size - j,
        {
            proof {
                lemma_nbhd_count_range(w, cursor_ind as int, 0, j as int);
            }
            let ghost pre = merged@;
            if self.in_nbhd(cursor_ind, j) {
                merged.push(Cell::create_empty());
            } else {
                proof {
                    lemma_nbhd_count_range(w, cursor_ind as int, j as int + 1, size);
                }
                merged.push(new_cells[cnt as usize]);
                cnt = cnt + 1;
            }
            proof {
                lemma_count_congruence(merged@, pre, j as int, CellTest::IsMine);
            }
            j = j + 1;
        }
        self.cells = merged;
        proof {
            assert(cnt == candidates_len);
            assert forall|k: int|
                0 <= k < size implies !test_cell(CellTest::IsNumber, self.cells@[k]) && !test_cell(
                CellTest::IsOpenNumber,
                self.cells@[k],
            ) && !self.cells@[k].revealed by {
                assert(self.cells@[k] == Cell::spec_mined() || self.cells@[k]
                    == Cell::spec_empty());
            }
            lemma_count_zero(self.cells@, size, CellTest::IsNumber);
            lemma_count_zero(self.cells@, size, CellTest::IsOpenNumber);
        }
        self.need_regen = false;
        let ghost laid = self.cells@;
        self.write_numbers();
        proof {
            assert forall|k: int|
                0 <= k < size implies ((#[trigger] self.cells@[k]).content is Mine <==> laid[k].content is Mine) by {
                assert(self.cells@[k] == written_cell(laid, w, k));
            }
            assert forall|k: int|
                0 <= k < size implies mine_adj_count(self.cells@, w, k) == mine_adj_count(
                laid,
                w,
                k,
            ) by {
                assert(self.cells@[k] == written_cell(laid, w, k));
            }
            lemma_count_testwise(self.cells@, laid, size, CellTest::IsMine);
        }
    }

    /// Uncovers a covered cell and clears its flag; a number seen for the
    /// first time is added to the opened count.
    fn uncover_clean(&mut self, i: u32)
        requires
            old(self).wf(),
            i < old(self).spec_size(),
            !old(self)@[i as int].revealed,
        ensures
            final(self).wf(),
            old(self).counts_exact() ==> final(self).counts_exact(),
            Field::same_config(*old(self), *final(self)),
            final(self).spec_x() == old(self).spec_x(),
            final(self).spec_y() == old(self).spec_y(),
            final(self).spec_need_regen() == old(self).spec_need_regen(),
            final(self).spec_numbers_total() == old(self).spec_numbers_total(),
            final(self)@ == old(self)@.update(
                i as int,
                (Cell { revealed: true, marked: false, ..old(self)@[i as int] }),
            ),
            final(self).spec_numbers_opened() == old(self).spec_numbers_opened() + (if old(
                self,
            )@[i as int].content is Number {
                1int
            } else {
                0int
            }),
            count_cells(final(self)@, final(self).spec_size() as int, CellTest::IsRevealed)
                == count_cells(old(self)@, old(self).spec_size() as int, CellTest::IsRevealed) + 1,
    {
        let ghost olds = self.cells@;
        let old_cell = self.cells[i as usize];
        let cell = Cell { revealed: true, marked: false, ..old_cell };
        self.cells[i as usize] = cell;
        proof {
            lemma_count_update(olds, self.size as int, i as int, cell, CellTest::IsNumber);
            lemma_count_update(olds, self.size as int, i as int, cell, CellTest::IsOpenNumber);
            lemma_count_update(olds, self.size as int, i as int, cell, CellTest::IsRevealed);
            lemma_count_bounds(olds, self.size as int, CellTest::IsNumber);
            if old_cell.content is Number {
                lemma_count_strict(
                    olds,
                    self.size as int,
                    i as int,
                    CellTest::IsOpenNumber,
                    CellTest::IsNumber,
                );
            }
        }
        if let Content::Number(_n) = old_cell.content {
            self.numbers_opened = self.numbers_opened + 1;
        }
    }

    /// One flood-fill probe at `x`: a covered blank is uncovered,
    /// unflagged and queued for expansion; a covered number is uncovered
    /// and unflagged but not expanded; everything else — mines above all —
    /// is left alone.
    fn chain_check(&mut self, x: u32, queue: &mut Vec<u32>, Ghost(base): Ghost<Seq<Cell>>)
        requires
            old(self).wf(),
            x < old(self).spec_size(),
            base.len() == old(self)@.len(),
            forall|j: int| 0 <= j < base.len() ==> only_flood_changes(base, old(self)@, j),
        ensures
            final(self).wf(),
            old(self).counts_exact() ==> final(self).counts_exact(),
            Field::same_config(*old(self), *final(self)),
            final(self).spec_x() == old(self).spec_x(),
            final(self).spec_y() == old(self).spec_y(),
            final(self).spec_need_regen() == old(self).spec_need_regen(),
            final(self).spec_numbers_total() == old(self).spec_numbers_total(),
            final(self)@.len() == old(self)@.len(),
            forall|j: int| 0 <= j < base.len() ==> only_flood_changes(base, final(self)@, j),
            ({
                let c = old(self)@[x as int];
                if !c.revealed && (c.content is Blank || c.content is Number) {
                    final(self)@ == old(self)@.update(
                        x as int,
                        (Cell { revealed: true, marked: false, ..c }),
                    )
                } else {
                    final(self)@ == old(self)@
                }
            }),
            ({
                let c = old(self)@[x as int];
                if !c.revealed && c.content is Blank {
                    final(queue)@ == old(queue)@.push(x)
                } else {
                    final(queue)@ == old(queue)@
                }
            }),
            count_cells(final(self)@, final(self).spec_size() as int, CellTest::IsRevealed)
                - final(queue)@.len() >= count_cells(
                old(self)@,
                old(self).spec_size() as int,
                CellTest::IsRevealed,
            ) - old(queue)@.len(),
    {
        let c = self.cells[x as usize];
        let ghost mids = self.cells@;
        match c.content {
            Content::Blank => {
                if !c.revealed {
                    queue.push(x);
                    self.uncover_clean(x);
                    proof {
                        assert forall|j: int|
                            0 <= j < base.len() implies only_flood_changes(base, self@, j) by {
                            assert(only_flood_changes(base, mids, j));
                        }
                    }
                }
            },
            Content::Number(_) => {
                if !c.revealed {
                    self.uncover_clean(x);
                    proof {
                        assert forall|j: int|
                            0 <= j < base.len() implies only_flood_changes(base, self@, j) by {
                            assert(only_flood_changes(base, mids, j));
                        }
                    }
                }
            },
            Content::Mine(_) => {},
        }
    }



    /// Probes the row above, the row below, and — off the left edge — the
    /// upper-left and left neighbors of `i`.
    #[verifier::rlimit(100)]
    fn probe_high_neighbors(&mut self, i: u32, queue: &mut Vec<u32>, Ghost(base): Ghost<Seq<Cell>>)
        requires
            old(self).wf(),
            i < old(self).spec_size(),
            base.len() == old(self)@.len(),
            forall|j: int| 0 <= j < base.len() ==> only_flood_changes(base, old(self)@, j),
        ensures
            final(self).wf(),
            old(self).counts_exact() ==> final(self).counts_exact(),
            Field::same_config(*old(self), *final(self)),
            final(self).spec_x() == old(self).spec_x(),
            final(self).spec_y() == old(self).spec_y(),
            final(self).spec_need_regen() == old(self).spec_need_regen(),
            final(self).spec_numbers_total() == old(self).spec_numbers_total(),
            final(self)@.len() == old(self)@.len(),
            forall|j: int| 0 <= j < base.len() ==> only_flood_changes(base, final(self)@, j),
            forall|j: int|
                0 <= j < base.len() ==> (#[trigger] final(self)@[j]).content == old(self)@[j].content,
            forall|j: int|
                0 <= j < base.len() && old(self)@[j].revealed ==> (#[trigger] final(self)@[j]).revealed,
            old(queue)@.len() <= final(queue)@.len(),
            forall|k: int| 0 <= k < old(queue)@.len() ==> final(queue)@[k] == old(queue)@[k],
            forall|k: int|
                old(queue)@.len() <= k < final(queue)@.len() ==> ((#[trigger] final(queue)@[k])
                    < old(self).spec_size() && base[final(queue)@[k] as int].content is Blank
                    && !base[final(queue)@[k] as int].revealed
                    && final(self)@[final(queue)@[k] as int].revealed),
            forall|j: int|
                0 <= j < base.len() && base[j].content is Blank && !old(self)@[j].revealed && (
                #[trigger] final(self)@[j]).revealed ==> final(queue)@.contains(j as u32),
            count_cells(final(self)@, final(self).spec_size() as int, CellTest::IsRevealed)
                - final(queue)@.len() >= count_cells(
                old(self)@,
                old(self).spec_size() as int,
                CellTest::IsRevealed,
            ) - old(queue)@.len(),
            forall|j: int|
                0 <= j < old(self)@.len() && (#[trigger] final(self)@[j]) != old(self)@[j]
                    ==> step_adj(
                    old(self).spec_width() as int,
                    old(self).spec_size() as int,
                    i as int,
                    j,
                ),
            forall|j2: int|
                #[trigger] step_adj(
                    old(self).spec_width() as int,
                    old(self).spec_size() as int,
                    i as int,
                    j2,
                ) && !(base[j2].content is Mine) && (j2 == i as int - old(self).spec_width() || j2
                    == i as int + old(self).spec_width() || (i as int % (old(self).spec_width() as int) > 0
                    && (j2 == i as int - old(self).spec_width() - 1 || j2 == i as int - 1)))
                    ==> final(self)@[j2].revealed,
    {
        let ghost w = self.spec_width() as int;
        let ghost size = self.spec_size() as int;
        let w_exec = self.width;
        let sz = self.size;
        proof {
            if i == 0 {
                vstd::arithmetic::div_mod::lemma_small_mod(0nat, w_exec as nat);
            }
        }
        let ghost s0 = self@;
        let ghost q0 = queue@;
        if i >= w_exec {
            self.chain_check(i - w_exec, queue, Ghost(base));
        }
        let ghost s1 = self@;
        let ghost q1 = queue@;
        if (i as u64 + w_exec as u64) < (sz as u64) {
            self.chain_check(i + w_exec, queue, Ghost(base));
        }
        let ghost s2 = self@;
        let ghost q2 = queue@;
        if i % w_exec > 0 && i > w_exec {
            self.chain_check(i - w_exec - 1, queue, Ghost(base));
        }
        let ghost s3 = self@;
        let ghost q3 = queue@;
        if i % w_exec > 0 {
            self.chain_check(i - 1, queue, Ghost(base));
        }
        proof {
            let ghost ii = i as int;
            assert forall|j2: int|
                step_adj(w, size, ii, j2) && !(base[j2].content is Mine) && (j2 == ii - w || j2
                    == ii + w || (ii % w > 0 && (j2 == ii - w - 1 || j2 == ii - 1))) implies self@[j2].revealed by {
                if j2 == ii - w {
                    assert(only_flood_changes(base, s0, j2));
                    assert(s1[j2].revealed);
                } else if j2 == ii + w {
                    assert(only_flood_changes(base, s1, j2));
                    assert(s2[j2].revealed);
                } else if ii % w > 0 && j2 == ii - w - 1 {
                    assert(only_flood_changes(base, s2, j2));
                    assert(s3[j2].revealed);
                } else {
                    assert(ii % w > 0 && j2 == ii - 1);
                    assert(only_flood_changes(base, s3, j2));
                    assert(self@[j2].revealed);
                }
            }
            assert forall|j: int|
                0 <= j < base.len() && base[j].content is Blank && !s0[j].revealed && (
                #[trigger] self@[j]).revealed implies queue@.contains(j as u32) by {
                if s1[j].revealed {
                    assert(only_flood_changes(base, s0, j));
                    assert(q1[q0.len() as int] == j as u32);
                    assert(queue@[q0.len() as int] == j as u32);
                } else if s2[j].revealed {
                    assert(only_flood_changes(base, s1, j));
                    assert(q2[q1.len() as int] == j as u32);
                    assert(queue@[q1.len() as int] == j as u32);
                } else if s3[j].revealed {
                    assert(only_flood_changes(base, s2, j));
                    assert(q3[q2.len() as int] == j as u32);
                    assert(queue@[q2.len() as int] == j as u32);
                } else {
                    assert(only_flood_changes(base, s3, j));
                    assert(queue@[q3.len() as int] == j as u32);
                }
            }
            assert forall|k: int|
                q0.len() <= k < queue@.len() implies ((#[trigger] queue@[k]) < self.spec_size()
                && base[queue@[k] as int].content is Blank && !base[queue@[k] as int].revealed
                && self@[queue@[k] as int].revealed) by {
                if k < q1.len() {
                    assert(queue@[k] == q1[k]);
                    assert(only_flood_changes(base, s0, q1[k] as int));
                    assert(s1[q1[k] as int].revealed);
                } else if k < q2.len() {
                    assert(queue@[k] == q2[k]);
                    assert(only_flood_changes(base, s1, q2[k] as int));
                    assert(s2[q2[k] as int].revealed);
                } else if k < q3.len() {
                    assert(queue@[k] == q3[k]);
                    assert(only_flood_changes(base, s2, q3[k] as int));
                    assert(s3[q3[k] as int].revealed);
                } else {
                    assert(only_flood_changes(base, s3, queue@[k] as int));
                }
            }
            assert forall|j: int|
                0 <= j < base.len() && (#[trigger] self@[j]) != s0[j] implies step_adj(
                w,
                size,
                ii,
                j,
            ) by {
                if s1[j] != s0[j] {
                    assert(j == ii - w);
                } else if s2[j] != s1[j] {
                    assert(j == ii + w);
                } else if s3[j] != s2[j] {
                    assert(j == ii - w - 1);
                } else {
                    assert(self@[j] != s3[j]);
                    assert(j == ii - 1);
                }
            }
        }
    }

    /// Probes the remaining neighbors of `i`: lower-left, then — off the
    /// right edge — upper-right, right and lower-right.
    #[verifier::rlimit(100)]
    fn probe_low_neighbors(&mut self, i: u32, queue: &mut Vec<u32>, Ghost(base): Ghost<Seq<Cell>>)
        requires
            old(self).wf(),
            i < old(self).spec_size(),
            base.len() == old(self)@.len(),
            forall|j: int| 0 <= j < base.len() ==> only_flood_changes(base, old(self)@, j),
        ensures
            final(self).wf(),
            old(self).counts_exact() ==> final(self).counts_exact(),
            Field::same_config(*old(self), *final(self)),
            final(self).spec_x() == old(self).spec_x(),
            final(self).spec_y() == old(self).spec_y(),
            final(self).spec_need_regen() == old(self).spec_need_regen(),
            final(self).spec_numbers_total() == old(self).spec_numbers_total(),
            final(self)@.len() == old(self)@.len(),
            forall|j: int| 0 <= j < base.len() ==> only_flood_changes(base, final(self)@, j),
            forall|j: int|
                0 <= j < base.len() ==> (#[trigger] final(self)@[j]).content == old(self)@[j].content,
            forall|j: int|
                0 <= j < base.len() && old(self)@[j].revealed ==> (#[trigger] final(self)@[j]).revealed,
            old(queue)@.len() <= final(queue)@.len(),
            forall|k: int| 0 <= k < old(queue)@.len() ==> final(queue)@[k] == old(queue)@[k],
            forall|k: int|
                old(queue)@.len() <= k < final(queue)@.len() ==> ((#[trigger] final(queue)@[k])
                    < old(self).spec_size() && base[final(queue)@[k] as int].content is Blank
                    && !base[final(queue)@[k] as int].revealed
                    && final(self)@[final(queue)@[k] as int].revealed),
            forall|j: int|
                0 <= j < base.len() && base[j].content is Blank && !old(self)@[j].revealed && (
                #[trigger] final(self)@[j]).revealed ==> final(queue)@.contains(j as u32),
            count_cells(final(self)@, final(self).spec_size() as int, CellTest::IsRevealed)
                - final(queue)@.len() >= count_cells(
                old(self)@,
                old(self).spec_size() as int,
                CellTest::IsRevealed,
            ) - old(queue)@.len(),
            forall|j: int|
                0 <= j < old(self)@.len() && (#[trigger] final(self)@[j]) != old(self)@[j]
                    ==> step_adj(
                    old(self).spec_width() as int,
                    old(self).spec_size() as int,
                    i as int,
                    j,
                ),
            forall|j2: int|
                #[trigger] step_adj(
                    old(self).spec_width() as int,
                    old(self).spec_size() as int,
                    i as int,
                    j2,
                ) && !(base[j2].content is Mine) && ((i as int % (old(self).spec_width() as int) > 0 && j2
                    == i as int + old(self).spec_width() - 1) || (i as int % (old(self).spec_width() as int)
                    < old(self).spec_width() as int - 1 && (j2 == i as int - old(self).spec_width() + 1
                    || j2 == i as int + 1 || j2 == i as int + old(self).spec_width() + 1)))
                    ==> final(self)@[j2].revealed,
    {
        let ghost w = self.spec_width() as int;
        let ghost size = self.spec_size() as int;
        let w_exec = self.width;
        let sz = self.size;
        proof {
            if i == 0 {
                vstd::arithmetic::div_mod::lemma_small_mod(0nat, w_exec as nat);
            }
        }
        let ghost s0 = self@;
        let ghost q0 = queue@;
        if i % w_exec > 0 && (i as u64 + w_exec as u64 - 1) < (sz as u64) {
            self.chain_check(i + w_exec - 1, queue, Ghost(base));
        }
        let ghost s1 = self@;
        let ghost q1 = queue@;
        if i % w_exec < w_exec - 1 && i + 1 >= w_exec {
            self.chain_check(i + 1 - w_exec, queue, Ghost(base));
        }
        let ghost s2 = self@;
        let ghost q2 = queue@;
        if i % w_exec < w_exec - 1 && i + 1 < sz {
            self.chain_check(i + 1, queue, Ghost(base));
        }
        let ghost s3 = self@;
        let ghost q3 = queue@;
        if i % w_exec < w_exec - 1 && (i as u64 + w_exec as u64 + 1) < (sz as u64) {
            self.chain_check(i + w_exec + 1, queue, Ghost(base));
        }
        proof {
            let ghost ii = i as int;
            assert forall|j2: int|
                step_adj(w, size, ii, j2) && !(base[j2].content is Mine) && ((ii % w > 0 && j2
                    == ii + w - 1) || (ii % w < w - 1 && (j2 == ii - w + 1 || j2 == ii + 1 || j2
                    == ii + w + 1))) implies self@[j2].revealed by {
                if ii % w > 0 && j2 == ii + w - 1 {
                    assert(only_flood_changes(base, s0, j2));
                    assert(s1[j2].revealed);
                } else if ii % w < w - 1 && j2 == ii - w + 1 {
                    assert(only_flood_changes(base, s1, j2));
                    assert(s2[j2].revealed);
                } else if ii % w < w - 1 && j2 == ii + 1 {
                    assert(only_flood_changes(base, s2, j2));
                    assert(s3[j2].revealed);
                } else {
                    assert(ii % w < w - 1 && j2 == ii + w + 1);
                    assert(only_flood_changes(base, s3, j2));
                    assert(self@[j2].revealed);
                }
            }
            assert forall|j: int|
                0 <= j < base.len() && base[j].content is Blank && !s0[j].revealed && (
                #[trigger] self@[j]).revealed implies queue@.contains(j as u32) by {
                if s1[j].revealed {
                    assert(only_flood_changes(base, s0, j));
                    assert(q1[q0.len() as int] == j as u32);
                    assert(queue@[q0.len() as int] == j as u32);
                } else if s2[j].revealed {
                    assert(only_flood_changes(base, s1, j));
                    assert(q2[q1.len() as int] == j as u32);
                    assert(queue@[q1.len() as int] == j as u32);
                } else if s3[j].revealed {
                    assert(only_flood_changes(base, s2, j));
                    assert(q3[q2.len() as int] == j as u32);
                    assert(queue@[q2.len() as int] == j as u32);
                } else {
                    assert(only_flood_changes(base, s3, j));
                    assert(queue@[q3.len() as int] == j as u32);
                }
            }
            assert forall|k: int|
                q0.len() <= k < queue@.len() implies ((#[trigger] queue@[k]) < self.spec_size()
                && base[queue@[k] as int].content is Blank && !base[queue@[k] as int].revealed
                && self@[queue@[k] as int].revealed) by {
                if k < q1.len() {
                    assert(queue@[k] == q1[k]);
                    assert(only_flood_changes(base, s0, q1[k] as int));
                    assert(s1[q1[k] as int].revealed);
                } else if k < q2.len() {
                    assert(queue@[k] == q2[k]);
                    assert(only_flood_changes(base, s1, q2[k] as int));
                    assert(s2[q2[k] as int].revealed);
                } else if k < q3.len() {
                    assert(queue@[k] == q3[k]);
                    assert(only_flood_changes(base, s2, q3[k] as int));
                    assert(s3[q3[k] as int].revealed);
                } else {
                    assert(only_flood_changes(base, s3, queue@[k] as int));
                }
            }
            assert forall|j: int|
                0 <= j < base.len() && (#[trigger] self@[j]) != s0[j] implies step_adj(
                w,
                size,
                ii,
                j,
            ) by {
                if s1[j] != s0[j] {
                    assert(j == ii + w - 1);
                } else if s2[j] != s1[j] {
                    assert(j == ii - w + 1);
                } else if s3[j] != s2[j] {
                    assert(j == ii + 1);
                } else {
                    assert(self@[j] != s3[j]);
                    assert(j == ii + w + 1);
                }
            }
        }
    }

    /// Probes all eight neighbors of `i` in the fixed order: the row
    /// above and below, then the left column, then the right. Afterwards
    /// the whole non-mine neighborhood of `i` is open, and the queue has
    /// grown by exactly the covered blanks this call opened.
    #[verifier::rlimit(100)]
    fn probe_neighbors(&mut self, i: u32, queue: &mut Vec<u32>, Ghost(base): Ghost<Seq<Cell>>)
        requires
            old(self).wf(),
            i < old(self).spec_size(),
            base.len() == old(self)@.len(),
            forall|j: int| 0 <= j < base.len() ==> only_flood_changes(base, old(self)@, j),
        ensures
            final(self).wf(),
            old(self).counts_exact() ==> final(self).counts_exact(),
            Field::same_config(*old(self), *final(self)),
            final(self).spec_x() == old(self).spec_x(),
            final(self).spec_y() == old(self).spec_y(),
            final(self).spec_need_regen() == old(self).spec_need_regen(),
            final(self).spec_numbers_total() == old(self).spec_numbers_total(),
            final(self)@.len() == old(self)@.len(),
            forall|j: int| 0 <= j < base.len() ==> only_flood_changes(base, final(self)@, j),
            forall|j: int|
                0 <= j < base.len() ==> (#[trigger] final(self)@[j]).content == old(self)@[j].content,
            forall|j: int|
                0 <= j < base.len() && old(self)@[j].revealed ==> (#[trigger] final(self)@[j]).revealed,
            old(queue)@.len() <= final(queue)@.len(),
            forall|k: int| 0 <= k < old(queue)@.len() ==> final(queue)@[k] == old(queue)@[k],
            forall|k: int|
                old(queue)@.len() <= k < final(queue)@.len() ==> ((#[trigger] final(queue)@[k])
                    < old(self).spec_size() && base[final(queue)@[k] as int].content is Blank
                    && !base[final(queue)@[k] as int].revealed
                    && final(self)@[final(queue)@[k] as int].revealed),
            forall|j: int|
                0 <= j < base.len() && base[j].content is Blank && !old(self)@[j].revealed && (
                #[trigger] final(self)@[j]).revealed ==> final(queue)@.contains(j as u32),
            count_cells(final(self)@, final(self).spec_size() as int, CellTest::IsRevealed)
                - final(queue)@.len() >= count_cells(
                old(self)@,
                old(self).spec_size() as int,
                CellTest::IsRevealed,
            ) - old(queue)@.len(),
            forall|j: int|
                0 <= j < old(self)@.len() && (#[trigger] final(self)@[j]) != old(self)@[j]
                    ==> step_adj(
                    old(self).spec_width() as int,
                    old(self).spec_size() as int,
                    i as int,
                    j,
                ),
            forall|j2: int|
                #[trigger] step_adj(
                    old(self).spec_width() as int,
                    old(self).spec_size() as int,
                    i as int,
                    j2,
                ) && !(base[j2].content is Mine) ==> final(self)@[j2].revealed,
    {
        let ghost w = self.spec_width() as int;
        let ghost size = self.spec_size() as int;
        let ghost s_mid_pre = self@;
        let ghost q_pre = queue@;
        self.probe_high_neighbors(i, queue, Ghost(base));
        let ghost s_mid = self@;
        let ghost q_mid = queue@;
        self.probe_low_neighbors(i, queue, Ghost(base));
        proof {
            let ghost ii = i as int;
            assert forall|j2: int|
                step_adj(w, size, ii, j2) && !(base[j2].content is Mine) implies self@[j2].revealed by {
                if j2 == ii - w || j2 == ii + w || (ii % w > 0 && (j2 == ii - w - 1 || j2 == ii
                    - 1)) {
                    assert(s_mid[j2].revealed);
                } else {
                    assert((ii % w > 0 && j2 == ii + w - 1) || (ii % w < w - 1 && (j2 == ii - w
                        + 1 || j2 == ii + 1 || j2 == ii + w + 1)));
                }
            }
            assert forall|j: int|
                0 <= j < base.len() && base[j].content is Blank && !s_mid_pre[j].revealed && (
                #[trigger] self@[j]).revealed implies queue@.contains(j as u32) by {
                if s_mid[j].revealed {
                    assert(q_mid.contains(j as u32));
                    let k = choose|k: int| 0 <= k < q_mid.len() && q_mid[k] == j as u32;
                    assert(queue@[k] == j as u32);
                }
            }
            assert forall|k: int|
                q_pre.len() <= k < queue@.len() implies ((#[trigger] queue@[k])
                < self.spec_size() && base[queue@[k] as int].content is Blank
                && !base[queue@[k] as int].revealed && self@[queue@[k] as int].revealed) by {
                if k < q_mid.len() {
                    assert(queue@[k] == q_mid[k]);
                }
            }
            assert forall|j: int|
                0 <= j < s_mid_pre.len() && (#[trigger] self@[j]) != s_mid_pre[j] implies step_adj(
                w,
                size,
                i as int,
                j,
            ) by {
                if s_mid[j] != s_mid_pre[j] {
                } else {
                    assert(self@[j] != s_mid[j]);
                }
            }
        }
    }

    /// Flood fill: walks breadth-first from `u` through 8-neighbor steps,
    /// uncovering and unflagging reachable covered blanks and the covered
    /// numbers at the region's border — every cell a flood walk can reach
    /// is opened, and a mine never is. A flagged starting cell makes the
    /// whole call a no-op.
    #[verifier::rlimit(100)]
    pub fn chain_reveal(&mut self, u: u32)
        requires
            old(self).wf(),
            u < old(self).spec_size(),
        ensures
            final(self).wf(),
            old(self).counts_exact() ==> final(self).counts_exact(),
            Field::same_config(*old(self), *final(self)),
            final(self).spec_x() == old(self).spec_x(),
            final(self).spec_y() == old(self).spec_y(),
            final(self).spec_need_regen() == old(self).spec_need_regen(),
            final(self).spec_numbers_total() == old(self).spec_numbers_total(),
            final(self)@.len() == old(self)@.len(),
            old(self)@[u as int].marked ==> *final(self) == *old(self),
            forall|j: int|
                0 <= j < old(self)@.len() ==> only_flood_changes(old(self)@, final(self)@, j),
            forall|j: int|
                0 <= j < old(self)@.len() && (#[trigger] final(self)@[j]) != old(self)@[j] ==> (j
                    == u as int || flood_reachable(
                    old(self)@,
                    old(self).spec_width() as int,
                    u as int,
                    j,
                )),
            !old(self)@[u as int].marked ==> (forall|j: int|
                0 <= j < old(self)@.len() && #[trigger] flood_reachable(
                    old(self)@,
                    old(self).spec_width() as int,
                    u as int,
                    j,
                ) && !(old(self)@[j].content is Mine) ==> final(self)@[j].revealed),
    {
        if self.marked(u) {
            return;
        }
        let ghost base = old(self)@;
        let ghost size = self.spec_size() as int;
        let ghost w = self.spec_width() as int;
        let mut queue: Vec<u32> = Vec::new();
        queue.push(u);
        let mut h: usize = 0;
        while h < queue.len()
            invariant
                base == old(self)@,
                size == old(self).spec_size() as int,
                w == old(self).spec_width() as int,
                u < old(self).spec_size(),
                size == base.len(),
                self.wf(),
                old(self).counts_exact() ==> self.counts_exact(),
                Field::same_config(*old(self), *self),
                self.spec_x() == old(self).spec_x(),
                self.spec_y() == old(self).spec_y(),
                self.spec_need_regen() == old(self).spec_need_regen(),
                self.spec_numbers_total() == old(self).spec_numbers_total(),
                self@.len() == base.len(),
                h <= queue@.len(),
                queue@.len() >= 1,
                queue@[0] == u,
                forall|k: int| 0 <= k < queue@.len() ==> (#[trigger] queue@[k]) < self.spec_size(),
                forall|j: int| 0 <= j < base.len() ==> only_flood_changes(base, self@, j),
                forall|j: int|
                    0 <= j < base.len() ==> (#[trigger] self@[j]).content == base[j].content,
                forall|j: int|
                    0 <= j < base.len() && base[j].revealed ==> (#[trigger] self@[j]).revealed,
                forall|k: int|
                    0 <= k < queue@.len() ==> ((#[trigger] queue@[k]) == u || (base[queue@[k] as int].content
                        is Blank && !base[queue@[k] as int].revealed
                        && self@[queue@[k] as int].revealed)),
                forall|j: int|
                    0 <= j < base.len() && base[j].content is Blank && !base[j].revealed && (
                    #[trigger] self@[j]).revealed ==> queue@.contains(j as u32),
                forall|k: int, j2: int|
                    0 <= k < h && #[trigger] step_adj(w, size, queue@[k] as int, j2) && !(
                    base[j2].content is Mine) ==> self@[j2].revealed,
                forall|j: int|
                    0 <= j < base.len() && (#[trigger] self@[j]) != base[j] ==> (j == u as int
                        || flood_reachable(base, w, u as int, j)),
            decreases size - count_cells(self@, size, CellTest::IsRevealed) + queue@.len() - h,
        {
            proof {
                lemma_count_bounds(self@, size, CellTest::IsRevealed);
            }
            let i = queue[h];
            let ghost s_head = self@;
            let ghost q_head = queue@;
            self.probe_neighbors(i, &mut queue, Ghost(base));
            proof {
                lemma_count_bounds(self@, size, CellTest::IsRevealed);
                assert forall|j: int|
                    0 <= j < base.len() && base[j].content is Blank && !base[j].revealed && (
                    #[trigger] self@[j]).revealed implies queue@.contains(j as u32) by {
                    if s_head[j].revealed {
                        assert(q_head.contains(j as u32));
                        let k = choose|k: int| 0 <= k < q_head.len() && q_head[k] == j as u32;
                        assert(queue@[k] == j as u32);
                    }
                }
                assert forall|k: int, j2: int|
                    0 <= k < h + 1 && #[trigger] step_adj(w, size, queue@[k] as int, j2) && !(
                    base[j2].content is Mine) implies self@[j2].revealed by {
                    if k < h {
                        assert(queue@[k] == q_head[k]);
                        assert(step_adj(w, size, q_head[k] as int, j2));
                        assert(s_head[j2].revealed);
                    } else {
                        assert(queue@[k] == q_head[h as int]);
                        assert(queue@[k] == i);
                    }
                }
                assert forall|j: int|
                    0 <= j < base.len() && (#[trigger] self@[j]) != base[j] implies (j == u as int
                    || flood_reachable(base, w, u as int, j)) by {
                    if s_head[j] != base[j] {
                        // already changed before this round; the head invariant covers it
                    } else {
                        assert(self@[j] != s_head[j]);
                        assert(step_adj(w, size, i as int, j));
                        if i != u {
                            assert(q_head[h as int] == i);
                            assert(base[i as int].content is Blank && !base[i as int].revealed
                                && s_head[i as int].revealed);
                            assert(s_head[i as int] != base[i as int]);
                        }
                        lemma_flood_reach_step(base, w, u as int, i as int, j);
                    }
                }
            }
            h = h + 1;
        }
        proof {
            assert forall|i2: int, j2: int|
                (i2 == u as int || (0 <= i2 < base.len() && base[i2].content is Blank
                    && !base[i2].revealed && self@[i2].revealed)) && #[trigger] step_adj(
                    w,
                    base.len() as int,
                    i2,
                    j2,
                ) && !(base[j2].content is Mine) implies self@[j2].revealed by {
                if i2 == u as int {
                    assert(queue@[0] == u);
                    assert(step_adj(w, size, queue@[0] as int, j2));
                } else {
                    assert(queue@.contains(i2 as u32));
                    let k = choose|k: int| 0 <= k < queue@.len() && queue@[k] == i2 as u32;
                    assert(step_adj(w, size, queue@[k] as int, j2));
                }
            }
            assert forall|j: int|
                0 <= j < base.len() && #[trigger] flood_reachable(base, w, u as int, j) && !(
                base[j].content is Mine) implies self@[j].revealed by {
                let p = choose|p: Seq<int>|
                    flood_path(base, w, u as int, p) && p.len() >= 2 && p.last() == j;
                lemma_flood_path_revealed(base, self@, w, u as int, p);
            }
        }
    }

    /// Performs the deferred generation if it is still pending; nothing
    /// happens on a field already generated.
    pub fn reset_if_need(&mut self, cursor_ind: u32)
        requires
            old(self).wf(),
            cursor_ind < old(self).spec_size(),
        ensures
            final(self).wf(),
            Field::same_config(*old(self), *final(self)),
            final(self).spec_x() == old(self).spec_x(),
            final(self).spec_y() == old(self).spec_y(),
            !final(self).spec_need_regen(),
            !old(self).spec_need_regen() ==> *final(self) == *old(self),
            old(self).spec_need_regen() ==> final(self).counts_exact() && generated_for(
                *final(self),
                cursor_ind as int,
            ),
    {
        if self.need_regen {
            self.reset(cursor_ind);
            self.need_regen = false;
        }
    }
}

/// Counting is blind to anything but the test's outcome.
pub proof fn lemma_count_testwise(s1: Seq<Cell>, s2: Seq<Cell>, n: int, t: CellTest)
    requires
        forall|i: int| 0 <= i < n ==> test_cell(t, s1[i]) == test_cell(t, s2[i]),
    ensures
        count_cells(s1, n, t) == count_cells(s2, n, t),
    decreases n,
{
    if n > 0 {
        lemma_count_testwise(s1, s2, n - 1, t);
    }
}

/// One flood-fill step from `i` to `j`: the exact 8-neighbor relation the
/// fill walks, with the row guards that keep the left and right columns
/// from wrapping across rows.
pub open spec fn step_adj(w: int, size: int, i: int, j: int) -> bool {
    &&& 0 <= i < size
    &&& 0 <= j < size
    &&& {
        ||| j == i - w
        ||| j == i + w
        ||| (i % w > 0 && (j == i - w - 1 || j == i - 1 || j == i + w - 1))
        ||| (i % w < w - 1 && (j == i - w + 1 || j == i + 1 || j == i + w + 1))
    }
}

/// A walk the flood fill can take on board `s`: it starts at `u`, moves
/// in 8-neighbor steps, and every cell strictly between the start and the
/// end is a covered blank — the cells the fill expands through.
pub open spec fn flood_path(s: Seq<Cell>, w: int, u: int, p: Seq<int>) -> bool {
    &&& p.len() >= 1
    &&& p[0] == u
    &&& (forall|k: int|
        0 <= k < p.len() - 1 ==> step_adj(w, s.len() as int, p[k], #[trigger] p[k + 1]))
    &&& (forall|k: int|
        1 <= k < p.len() - 1 ==> (#[trigger] s[p[k]]).content is Blank && !s[p[k]].revealed)
}

/// The cell `j` can be reached from `u` by some flood-fill walk.
pub open spec fn flood_reachable(s: Seq<Cell>, w: int, u: int, j: int) -> bool {
    exists|p: Seq<int>| flood_path(s, w, u, p) && p.len() >= 2 && p.last() == j
}

/// Walking a closed position: when every expanded cell — the start, and
/// each covered blank the fill has opened — has all its non-mine
/// neighbors open, then the end of every flood walk to a non-mine cell is
/// open.
proof fn lemma_flood_path_revealed(pre: Seq<Cell>, cur: Seq<Cell>, w: int, u: int, p: Seq<int>)
    requires
        pre.len() == cur.len(),
        forall|j: int| 0 <= j < cur.len() ==> (#[trigger] cur[j]).content == pre[j].content,
        forall|i: int, j: int|
            (i == u || (0 <= i < pre.len() && pre[i].content is Blank && !pre[i].revealed
                && cur[i].revealed)) && #[trigger] step_adj(w, pre.len() as int, i, j) && !(
            pre[j].content is Mine) ==> cur[j].revealed,
        flood_path(pre, w, u, p),
        p.len() >= 2,
        !(pre[p.last()].content is Mine),
    ensures
        cur[p.last()].revealed,
    decreases p.len(),
{
    let n = p.len() as int;
    if n == 2 {
        assert(p[0] == u);
        assert(p[0int + 1] == p.last());
        assert(step_adj(w, pre.len() as int, p[0], p[0int + 1]));
    } else {
        let q = p.subrange(0, n - 1);
        assert forall|k: int|
            0 <= k < q.len() - 1 implies step_adj(w, pre.len() as int, q[k], #[trigger] q[k
            + 1]) by {
            assert(q[k] == p[k]);
            assert(q[k + 1] == p[k + 1]);
            assert(step_adj(w, pre.len() as int, p[k], p[k + 1]));
        }
        assert forall|k: int|
            1 <= k < q.len() - 1 implies (#[trigger] pre[q[k]]).content is Blank
            && !pre[q[k]].revealed by {
            assert(q[k] == p[k]);
            assert((pre[p[k]]).content is Blank && !pre[p[k]].revealed);
        }
        assert(q[0] == p[0]);
        assert(flood_path(pre, w, u, q));
        assert(q.last() == p[n - 2]);
        assert((pre[p[n - 2]]).content is Blank && !pre[p[n - 2]].revealed);
        lemma_flood_path_revealed(pre, cur, w, u, q);
        assert(cur[p[n - 2]].revealed);
        assert(p[(n - 2) + 1] == p.last());
        assert(step_adj(w, pre.len() as int, p[n - 2], p[(n - 2) + 1]));
    }
}

/// One more flood step: every neighbor of the start, and of any
/// reachable covered blank, is itself reachable.
pub proof fn lemma_flood_reach_step(s: Seq<Cell>, w: int, u: int, i: int, x: int)
    requires
        i == u || (flood_reachable(s, w, u, i) && 0 <= i < s.len() && s[i].content is Blank
            && !s[i].revealed),
        step_adj(w, s.len() as int, i, x),
    ensures
        flood_reachable(s, w, u, x),
{
    if i == u {
        let p = seq![u, x];
        assert(p[0] == u);
        assert(p[0int + 1] == x);
        assert forall|k: int|
            0 <= k < p.len() - 1 implies step_adj(w, s.len() as int, p[k], #[trigger] p[k
            + 1]) by {
            assert(k == 0);
        }
        assert(flood_path(s, w, u, p));
        assert(p.len() >= 2 && p.last() == x);
    } else {
        let p0 = choose|p: Seq<int>| flood_path(s, w, u, p) && p.len() >= 2 && p.last() == i;
        let p = p0.push(x);
        assert(p[0] == p0[0]);
        assert forall|k: int|
            0 <= k < p.len() - 1 implies step_adj(w, s.len() as int, p[k], #[trigger] p[k
            + 1]) by {
            if k < p0.len() - 1 {
                assert(p[k] == p0[k]);
                assert(p[k + 1] == p0[k + 1]);
                assert(step_adj(w, s.len() as int, p0[k], p0[k + 1]));
            } else {
                assert(k == p0.len() - 1);
                assert(p[k] == p0[k]);
                assert(p0[k] == p0.last());
                assert(p[k + 1] == x);
            }
        }
        assert forall|k: int|
            1 <= k < p.len() - 1 implies (#[trigger] s[p[k]]).content is Blank
            && !s[p[k]].revealed by {
            if k < p0.len() - 1 {
                assert(p[k] == p0[k]);
                assert((s[p0[k]]).content is Blank && !s[p0[k]].revealed);
            } else {
                assert(k == p0.len() - 1);
                assert(p[k] == p0.last());
            }
        }
        assert(flood_path(s, w, u, p));
        assert(p.len() >= 2 && p.last() == x);
    }
}

/// What a flood fill may do to a cell: leave it alone, or — when it was
/// covered and holds no mine — uncover it and clear its flag.
pub open spec fn only_flood_changes(pre: Seq<Cell>, post: Seq<Cell>, j: int) -> bool {
    ||| post[j] == pre[j]
    ||| (!pre[j].revealed && !(pre[j].content is Mine) && post[j] == (Cell {
        revealed: true,
        marked: false,
        ..pre[j]
    }))
}

/// The cell after number-writing: a blank cell with mines around it gets
/// their count, everything else stays as it is.
pub open spec fn written_cell(s: Seq<Cell>, w: int, j: int) -> Cell {
    if s[j].content is Blank && mine_adj_count(s, w, j) > 0 {
        Cell { content: Content::Number(mine_adj_count(s, w, j) as u8), ..s[j] }
    } else {
        s[j]
    }
}

/// A field as `reset(cursor)` leaves it: everything covered and
/// unflagged, nothing opened, no mine on or next to the cursor, every
/// number the exact count of its adjacent mines, and exactly the mine
/// budget placed — capped by the room outside the cursor's box.
pub open spec fn generated_for(f: Field, cursor: int) -> bool {
    let w = f.spec_width() as int;
    let size = f.spec_size() as int;
    &&& f@.len() == size
    &&& f.spec_numbers_opened() == 0
    &&& (forall|j: int|
        0 <= j < size && in_neighborhood(w, cursor, j) ==> !((#[trigger] f@[j]).content is Mine))
    &&& (forall|j: int| 0 <= j < size ==> !((#[trigger] f@[j]).revealed) && !f@[j].marked)
    &&& (forall|j: int|
        0 <= j < size ==> ((#[trigger] f@[j]).content matches Content::Number(n) ==> n as int
            == mine_adj_count(f@, w, j) && 1 <= n <= 8))
    &&& (forall|j: int|
        0 <= j < size ==> ((#[trigger] f@[j]).content is Blank ==> mine_adj_count(f@, w, j) == 0))
    &&& count_cells(f@, size, CellTest::IsMine) == (if f.spec_mines() as int <= size - nbhd_count(
        w,
        cursor,
        size,
    ) {
        f.spec_mines() as int
    } else {
        size - nbhd_count(w, cursor, size)
    })
}

/// How many of the cells `0..n` are flagged and lie in the 3x3 box
/// around `c`.
pub open spec fn marked_nbhd_count(s: Seq<Cell>, w: int, c: int, n: int) -> int
    decreases n,
{
    if n <= 0 {
        0
    } else {
        marked_nbhd_count(s, w, c, n - 1) + if in_neighborhood(w, c, n - 1) && s[n - 1].marked {
            1int
        } else {
            0int
        }
    }
}

pub proof fn lemma_marked_nbhd_count_bounds(s: Seq<Cell>, w: int, c: int, n: int)
    ensures
        0 <= marked_nbhd_count(s, w, c, n) <= (if n <= 0 {
            0int
        } else {
            n
        }),
    decreases n,
{
    if n > 0 {
        lemma_marked_nbhd_count_bounds(s, w, c, n - 1);
    }
}

/// On sequences of cells that all carry one of two values, counting a
/// test that tells the values apart is counting the first value's copies.
pub proof fn lemma_count_two_valued(s: Seq<Cell>, t: CellTest, a: Cell, b: Cell)
    requires
        forall|k: int| 0 <= k < s.len() ==> s[k] == a || s[k] == b,
        test_cell(t, a),
        !test_cell(t, b),
    ensures
        count_cells(s, s.len() as int, t) == s.to_multiset().count(a),
    decreases s.len(),
{
    broadcast use vstd::seq_lib::group_to_multiset_ensures;
    broadcast use vstd::multiset::group_multiset_axioms;

    if s.len() == 0 {
        assert(s.to_multiset() =~= Multiset::<Cell>::empty());
    } else {
        let head = s.drop_last();
        lemma_count_two_valued(head, t, a, b);
        assert(s =~= head.push(s.last()));
        assert(s.to_multiset() =~= head.to_multiset().insert(s.last()));
        lemma_count_congruence(s, head, s.len() - 1, t);
    }
}

} // verus!
