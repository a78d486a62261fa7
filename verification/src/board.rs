//! The grid: per-cell records, aggregate counters, and the game phase.
//!
//! A cell's `value` is the number of mines among its 8 neighbors (0..=8);
//! the value 9 is a sentinel meaning "this cell is a mine".

use vstd::prelude::*;

verus! {

#[derive(Clone, Copy, Debug, PartialEq, Eq, Structural)]
pub enum CellState {
    Hidden,
    Flagged,
    Questioned,
    ShowMineExploded,
    ShowValue,
    ShowInvalidMine,
}

#[derive(Clone, Copy, Debug, PartialEq, Eq, Structural)]
pub enum GameState {
    BeforeGame,
    Playing,
    GameOver,
    GameWon,
}

/// The mine sentinel: a cell with this value is a mine, not a neighbor count.
pub const MINE_VALUE: u8 = 9;

#[derive(Clone, Copy, PartialEq, Eq, Structural)]
pub struct CellDetails {
    pub state: CellState,
    pub value: u8,
}

// ------------------------------------------------------------------
// Counting cells of a grid that satisfy a predicate, with the lemmas
// the counter invariants rest on.
// ------------------------------------------------------------------

pub open spec fn count_row(row: Seq<CellDetails>, f: spec_fn(CellDetails) -> bool) -> int
    decreases row.len(),
{
    if row.len() == 0 {
        0
    } else {
        count_row(row.drop_last(), f) + if f(row.last()) { 1int } else { 0int }
    }
}

pub open spec fn count_grid(g: Seq<Seq<CellDetails>>, f: spec_fn(CellDetails) -> bool) -> int
    decreases g.len(),
{
    if g.len() == 0 {
        0
    } else {
        count_grid(g.drop_last(), f) + count_row(g.last(), f)
    }
}

pub open spec fn is_flagged(c: CellDetails) -> bool {
    c.state == CellState::Flagged
}

/// A cell still "in play": not permanently revealed and not flagged.
pub open spec fn is_hiddenish(c: CellDetails) -> bool {
    c.state == CellState::Hidden || c.state == CellState::Questioned
}

pub open spec fn flagged_p() -> spec_fn(CellDetails) -> bool {
    |c: CellDetails| is_flagged(c)
}

pub open spec fn hiddenish_p() -> spec_fn(CellDetails) -> bool {
    |c: CellDetails| is_hiddenish(c)
}

pub open spec fn flagged_count(g: Seq<Seq<CellDetails>>) -> int {
    count_grid(g, flagged_p())
}

pub open spec fn hiddenish_count(g: Seq<Seq<CellDetails>>) -> int {
    count_grid(g, hiddenish_p())
}

pub proof fn lemma_count_row_bounds(row: Seq<CellDetails>, f: spec_fn(CellDetails) -> bool)
    ensures
        0 <= count_row(row, f) <= row.len(),
    decreases row.len(),
{
    if row.len() > 0 {
        lemma_count_row_bounds(row.drop_last(), f);
    }
}

pub proof fn lemma_count_row_update(
    row: Seq<CellDetails>,
    f: spec_fn(CellDetails) -> bool,
    i: int,
    c: CellDetails,
)
    requires
        0 <= i < row.len(),
    ensures
        count_row(row.update(i, c), f) == count_row(row, f) - (if f(row[i]) {
            1int
        } else {
            0int
        }) + (if f(c) {
            1int
        } else {
            0int
        }),
    decreases row.len(),
{
    let r2 = row.update(i, c);
    if i == row.len() - 1 {
        assert(r2.drop_last() =~= row.drop_last());
        assert(r2.last() == c);
    } else {
        assert(r2.drop_last() =~= row.drop_last().update(i, c));
        assert(r2.last() == row.last());
        lemma_count_row_update(row.drop_last(), f, i, c);
    }
}

pub proof fn lemma_count_row_at(row: Seq<CellDetails>, f: spec_fn(CellDetails) -> bool, i: int)
    requires
        0 <= i < row.len(),
        f(row[i]),
    ensures
        count_row(row, f) >= 1,
    decreases row.len(),
{
    lemma_count_row_bounds(row.drop_last(), f);
    if i < row.len() - 1 {
        lemma_count_row_at(row.drop_last(), f, i);
    }
}

pub proof fn lemma_count_grid_nonneg(g: Seq<Seq<CellDetails>>, f: spec_fn(CellDetails) -> bool)
    ensures
        0 <= count_grid(g, f),
    decreases g.len(),
{
    if g.len() > 0 {
        lemma_count_grid_nonneg(g.drop_last(), f);
        lemma_count_row_bounds(g.last(), f);
    }
}

pub proof fn lemma_count_grid_update_row(
    g: Seq<Seq<CellDetails>>,
    f: spec_fn(CellDetails) -> bool,
    y: int,
    row: Seq<CellDetails>,
)
    requires
        0 <= y < g.len(),
    ensures
        count_grid(g.update(y, row), f) == count_grid(g, f) - count_row(g[y], f) + count_row(
            row,
            f,
        ),
    decreases g.len(),
{
    let g2 = g.update(y, row);
    if y == g.len() - 1 {
        assert(g2.drop_last() =~= g.drop_last());
        assert(g2.last() == row);
    } else {
        assert(g2.drop_last() =~= g.drop_last().update(y, row));
        assert(g2.last() == g.last());
        lemma_count_grid_update_row(g.drop_last(), f, y, row);
    }
}

/// Changing one cell changes a count by the difference of the two indicators.
pub proof fn lemma_count_grid_update_cell(
    g: Seq<Seq<CellDetails>>,
    f: spec_fn(CellDetails) -> bool,
    x: int,
    y: int,
    c: CellDetails,
)
    requires
        0 <= y < g.len(),
        0 <= x < g[y].len(),
    ensures
        count_grid(g.update(y, g[y].update(x, c)), f) == count_grid(g, f) - (if f(g[y][x]) {
            1int
        } else {
            0int
        }) + (if f(c) {
            1int
        } else {
            0int
        }),
{
    lemma_count_grid_update_row(g, f, y, g[y].update(x, c));
    lemma_count_row_update(g[y], f, x, c);
}

pub proof fn lemma_count_grid_at(
    g: Seq<Seq<CellDetails>>,
    f: spec_fn(CellDetails) -> bool,
    x: int,
    y: int,
)
    requires
        0 <= y < g.len(),
        0 <= x < g[y].len(),
        f(g[y][x]),
    ensures
        count_grid(g, f) >= 1,
    decreases g.len(),
{
    lemma_count_grid_nonneg(g.drop_last(), f);
    lemma_count_row_bounds(g.last(), f);
    if y == g.len() - 1 {
        lemma_count_row_at(g.last(), f, x);
    } else {
        lemma_count_grid_at(g.drop_last(), f, x, y);
    }
}

// ------------------------------------------------------------------
// The board itself.
// ------------------------------------------------------------------

/// Shape of a grid: `h` rows of `w` cells each, every value in 0..=9.
pub open spec fn grid_shaped(g: Seq<Seq<CellDetails>>, w: int, h: int) -> bool {
    &&& g.len() == h
    &&& forall|y: int| 0 <= y < h ==> (#[trigger] g[y]).len() == w
    &&& forall|y: int, x: int|
        0 <= y < h && 0 <= x < w ==> (#[trigger] g[y][x]).value <= MINE_VALUE
}

pub struct Board {
    width: usize,
    height: usize,
    hidden_cell_count: usize,
    flag_count: usize,
    mines: usize,
    state: GameState,
    cells: Vec<Vec<CellDetails>>,
}

impl Board {
    pub closed spec fn grid(&self) -> Seq<Seq<CellDetails>> {
        self.cells@.map_values(|row: Vec<CellDetails>| row@)
    }

    pub closed spec fn spec_width(&self) -> usize {
        self.width
    }

    pub closed spec fn spec_height(&self) -> usize {
        self.height
    }

    pub closed spec fn spec_flag_count(&self) -> usize {
        self.flag_count
    }

    pub closed spec fn spec_hidden_count(&self) -> usize {
        self.hidden_cell_count
    }

    pub closed spec fn spec_mines(&self) -> usize {
        self.mines
    }

    pub closed spec fn spec_game_state(&self) -> GameState {
        self.state
    }

    pub open spec fn spec_empty(&self) -> bool {
        self.spec_width() == 0 || self.spec_height() == 0
    }

    pub open spec fn in_bounds(&self, x: int, y: int) -> bool {
        0 <= x < self.spec_width() && 0 <= y < self.spec_height()
    }

    /// Structural well-formedness: shape of the cell array and the machine
    /// bounds that keep the arithmetic of the accessors exact.
    pub open spec fn shape_wf(&self) -> bool {
        &&& grid_shaped(self.grid(), self.spec_width() as int, self.spec_height() as int)
        &&& self.spec_width() as int * self.spec_height() as int <= isize::MAX as int
        &&& self.spec_mines() as int <= isize::MAX as int
    }

    /// `flag_count` is exactly the number of flagged cells.
    pub open spec fn flag_inv(&self) -> bool {
        self.spec_flag_count() as int == flagged_count(self.grid())
    }

    /// `hidden_cell_count` is exactly the number of cells still in play.
    pub open spec fn hidden_eq(&self) -> bool {
        self.spec_hidden_count() as int == hiddenish_count(self.grid())
    }

    /// The two counters never outgrow the board.
    pub open spec fn sum_bound(&self) -> bool {
        self.spec_hidden_count() as int + self.spec_flag_count() as int <= self.spec_width()
            as int * self.spec_height() as int
    }

    /// The counter invariants, which hold at all times: `flag_count` is
    /// exactly the number of flagged cells and `hidden_cell_count` exactly the
    /// number of cells still in play.
    pub open spec fn counts_ok(&self) -> bool {
        &&& self.flag_inv()
        &&& self.hidden_eq()
        &&& self.sum_bound()
    }

    pub open spec fn wf(&self) -> bool {
        self.shape_wf() && self.counts_ok()
    }

    pub fn empty() -> (r: Board)
        ensures
            r.wf(),
            r.spec_width() == 0,
            r.spec_height() == 0,
            r.spec_flag_count() == 0,
            r.spec_hidden_count() == 0,
            r.spec_mines() == 0,
            r.spec_game_state() == GameState::BeforeGame,
            r.grid().len() == 0,
    {
        Board {
            width: 0,
            height: 0,
            hidden_cell_count: 0,
            mines: 0,
            flag_count: 0,
            state: GameState::BeforeGame,
            cells: Vec::new(),
        }
    }

    #[verifier::loop_isolation(false)]
    pub fn new(width: u32, height: u32, mines: u32) -> (r: Board)
        requires
            width as int * height as int <= isize::MAX as int,
            mines as int <= isize::MAX as int,
        ensures
            r.wf(),
            width == 0 || height == 0 ==> r.spec_width() == 0 && r.spec_height() == 0
                && r.spec_mines() == 0 && r.spec_flag_count() == 0 && r.spec_hidden_count() == 0
                && r.spec_game_state() == GameState::BeforeGame,
            width >= 1 && height >= 1 ==> {
                &&& r.spec_width() == width as usize
                &&& r.spec_height() == height as usize
                &&& r.spec_hidden_count() as int == width as int * height as int
                &&& r.spec_flag_count() == 0
                &&& r.spec_mines() == mines as usize
                &&& r.spec_game_state() == GameState::Playing
                &&& forall|y: int, x: int|
                    0 <= y < height as int && 0 <= x < width as int ==> #[trigger] r.grid()[y][x]
                        == (CellDetails { state: CellState::Hidden, value: 0u8 })
            },
    {
        if width < 1 || height < 1 {
            return Board::empty();
        }
        let w: usize = width as usize;
        let h: usize = height as usize;
        let cell0 = CellDetails { state: CellState::Hidden, value: 0u8 };
        let mut cells: Vec<Vec<CellDetails>> = Vec::new();
        let mut y: usize = 0;
        while y < h
            invariant
                0 <= y <= h,
                cells@.len() == y as int,
                forall|j: int| 0 <= j < y as int ==> (#[trigger] cells@[j])@.len() == w as int,
                forall|j: int, i: int|
                    0 <= j < y as int && 0 <= i < w as int ==> (#[trigger] cells@[j]@[i]) == cell0,
                count_grid(cells@.map_values(|row: Vec<CellDetails>| row@), hiddenish_p()) == y
                    as int * w as int,
                count_grid(cells@.map_values(|row: Vec<CellDetails>| row@), flagged_p()) == 0,
            decreases h - y,
        {
            let mut row: Vec<CellDetails> = Vec::new();
            let mut x: usize = 0;
            while x < w
                invariant
                    0 <= x <= w,
                    row@.len() == x as int,
                    forall|i: int| 0 <= i < x as int ==> (#[trigger] row@[i]) == cell0,
                    count_row(row@, hiddenish_p()) == x as int,
                    count_row(row@, flagged_p()) == 0,
                decreases w - x,
            {
                proof {
                    assert(row@.push(cell0).drop_last() =~= row@);
                    assert(hiddenish_p()(cell0));
                    assert(!flagged_p()(cell0));
                }
                row.push(cell0);
                x = x + 1;
            }
            proof {
                let g0 = cells@.map_values(|r2: Vec<CellDetails>| r2@);
                let g1 = cells@.push(row).map_values(|r2: Vec<CellDetails>| r2@);
                assert(g1.drop_last() =~= g0);
                assert(g1.last() == row@);
                assert(count_grid(g1, hiddenish_p()) == count_grid(g0, hiddenish_p()) + count_row(
                    row@,
                    hiddenish_p(),
                ));
                assert(count_grid(g1, flagged_p()) == count_grid(g0, flagged_p()) + count_row(
                    row@,
                    flagged_p(),
                ));
                assert((y as int + 1) * (w as int) == y as int * w as int + w as int)
                    by (nonlinear_arith);
            }
            cells.push(row);
            y = y + 1;
        }
        proof {
            let g = cells@.map_values(|r2: Vec<CellDetails>| r2@);
            assert forall|j: int, i: int|
                0 <= j < h as int && 0 <= i < w as int implies (#[trigger] g[j][i]) == cell0 by {
                assert(cells@[j]@[i] == cell0);
            }
            assert(grid_shaped(g, w as int, h as int));
            assert(h as int * w as int == w as int * h as int) by (nonlinear_arith);
        }
        Board {
            width: w,
            height: h,
            hidden_cell_count: w * h,
            flag_count: 0,
            mines: mines as usize,
            state: GameState::Playing,
            cells,
        }
    }

    #[verifier::loop_isolation(false)]
    pub fn clone_cells(&self) -> (r: Vec<Vec<CellDetails>>)
        requires
            self.shape_wf(),
        ensures
            r@.len() == self.grid().len(),
            forall|y: int| 0 <= y < r@.len() ==> (#[trigger] r@[y])@ == self.grid()[y],
    {
        let mut out: Vec<Vec<CellDetails>> = Vec::new();
        let mut y: usize = 0;
        while y < self.height
            invariant
                0 <= (y as int) <= self.grid().len(),
                out@.len() == y as int,
                forall|j: int| 0 <= j < y as int ==> (#[trigger] out@[j])@ == self.grid()[j],
            decreases self.spec_height() - y,
        {
            let mut row: Vec<CellDetails> = Vec::new();
            let mut x: usize = 0;
            while x < self.width
                invariant
                    0 <= (y as int) < self.grid().len(),
                    0 <= (x as int) <= self.grid()[y as int].len(),
                    row@.len() == x as int,
                    forall|i: int|
                        0 <= i < x as int ==> (#[trigger] row@[i]) == self.grid()[y as int][i],
                decreases self.spec_width() - x,
            {
                row.push(self.cells[y][x]);
                x = x + 1;
            }
            proof {
                assert(row@ =~= self.grid()[y as int]);
            }
            out.push(row);
            y = y + 1;
        }
        out
    }

    pub fn board_empty(&self) -> (r: bool)
        ensures
            r == self.spec_empty(),
    {
        return self.width == 0 || self.height == 0;
    }

    pub fn get_width(&self) -> (r: usize)
        ensures
            r == self.spec_width(),
    {
        self.width
    }

    pub fn get_height(&self) -> (r: usize)
        ensures
            r == self.spec_height(),
    {
        self.height
    }

    pub fn get_value(&self, x: usize, y: usize) -> (r: Result<u8, String>)
        requires
            self.shape_wf(),
        ensures
            self.spec_empty() || x as int >= self.spec_width() as int || y as int
                >= self.spec_height() as int ==> r is Err,
            !self.spec_empty() && self.in_bounds(x as int, y as int) ==> r == Ok::<u8, String>(
                self.grid()[y as int][x as int].value,
            ),
    {
        if self.board_empty() {
            Err("Board is empty".to_owned())
        } else if x >= self.width || y >= self.height {
            Err("Cell coordinate out of bounds".to_owned())
        } else {
            Ok(self.cells[y][x].value)
        }
    }

    pub fn get_state(&self, x: usize, y: usize) -> (r: Result<CellState, String>)
        requires
            self.shape_wf(),
        ensures
            self.spec_empty() || x as int >= self.spec_width() as int || y as int
                >= self.spec_height() as int ==> r is Err,
            !self.spec_empty() && self.in_bounds(x as int, y as int) ==> r == Ok::<
                CellState,
                String,
            >(self.grid()[y as int][x as int].state),
    {
        if self.board_empty() {
            Err("Board is empty".to_owned())
        } else if x >= self.width || y >= self.height {
            Err("Cell coordinate out of bounds".to_owned())
        } else {
            Ok(self.cells[y][x].state)
        }
    }

    pub fn set_value(&mut self, x: usize, y: usize, value: u8) -> (r: Result<(), String>)
        requires
            old(self).shape_wf(),
        ensures
            final(self).shape_wf(),
            old(self).spec_empty() || x as int >= old(self).spec_width() as int || y as int >= old(
                self,
            ).spec_height() as int || value > MINE_VALUE ==> r is Err && *final(self) == *old(self),
            !old(self).spec_empty() && old(self).in_bounds(x as int, y as int) && value
                <= MINE_VALUE ==> {
                &&& r is Ok
                &&& final(self).grid() == old(self).grid().update(
                    y as int,
                    old(self).grid()[y as int].update(
                        x as int,
                        CellDetails {
                            state: old(self).grid()[y as int][x as int].state,
                            value,
                        },
                    ),
                )
                &&& final(self).spec_width() == old(self).spec_width()
                &&& final(self).spec_height() == old(self).spec_height()
                &&& final(self).spec_flag_count() == old(self).spec_flag_count()
                &&& final(self).spec_hidden_count() == old(self).spec_hidden_count()
                &&& final(self).spec_mines() == old(self).spec_mines()
                &&& final(self).spec_game_state() == old(self).spec_game_state()
                &&& flagged_count(final(self).grid()) == flagged_count(old(self).grid())
                &&& hiddenish_count(final(self).grid()) == hiddenish_count(old(self).grid())
            },
    {
        if self.board_empty() {
            return Err("Board is empty".to_owned());
        }
        if x >= self.width || y >= self.height {
            Err("Cell coordinate out of bounds".to_owned())
        } else if value > 9 {
            Err("Invalid cell value, must be between 0 and 9 inclusive".to_owned())
        } else {
            let old_cell = self.cells[y][x];
            let new_cell = CellDetails { state: old_cell.state, value };
            self.cells[y][x] = new_cell;
            proof {
                let g0 = old(self).grid();
                assert(self.grid() =~= g0.update(y as int, g0[y as int].update(x as int, new_cell)));
                lemma_count_grid_update_cell(g0, flagged_p(), x as int, y as int, new_cell);
                lemma_count_grid_update_cell(g0, hiddenish_p(), x as int, y as int, new_cell);
            }
            Ok(())
        }
    }

    pub fn set_state(&mut self, x: usize, y: usize, state: CellState) -> (r: Result<(), String>)
        requires
            old(self).shape_wf(),
        ensures
            final(self).shape_wf(),
            old(self).spec_empty() || x as int >= old(self).spec_width() as int || y as int >= old(
                self,
            ).spec_height() as int ==> r is Err && *final(self) == *old(self),
            !old(self).spec_empty() && old(self).in_bounds(x as int, y as int) ==> {
                &&& r is Ok
                &&& final(self).grid() == old(self).grid().update(
                    y as int,
                    old(self).grid()[y as int].update(
                        x as int,
                        CellDetails {
                            state,
                            value: old(self).grid()[y as int][x as int].value,
                        },
                    ),
                )
                &&& final(self).spec_width() == old(self).spec_width()
                &&& final(self).spec_height() == old(self).spec_height()
                &&& final(self).spec_flag_count() == old(self).spec_flag_count()
                &&& final(self).spec_hidden_count() == old(self).spec_hidden_count()
                &&& final(self).spec_mines() == old(self).spec_mines()
                &&& final(self).spec_game_state() == old(self).spec_game_state()
            },
    {
        if self.board_empty() {
            return Err("Board is empty".to_owned());
        }
        if x >= self.width || y >= self.height {
            Err("Cell coordinate out of bounds".to_owned())
        } else {
            let old_cell = self.cells[y][x];
            let new_cell = CellDetails { state, value: old_cell.value };
            self.cells[y][x] = new_cell;
            proof {
                let g0 = old(self).grid();
                assert(self.grid() =~= g0.update(y as int, g0[y as int].update(x as int, new_cell)));
            }
            Ok(())
        }
    }

    pub fn get_game_state(&self) -> (r: GameState)
        ensures
            r == self.spec_game_state(),
    {
        self.state
    }

    pub fn set_game_state(&mut self, new_state: GameState)
        ensures
            final(self).spec_game_state() == new_state,
            final(self).grid() == old(self).grid(),
            final(self).spec_width() == old(self).spec_width(),
            final(self).spec_height() == old(self).spec_height(),
            final(self).spec_flag_count() == old(self).spec_flag_count(),
            final(self).spec_hidden_count() == old(self).spec_hidden_count(),
            final(self).spec_mines() == old(self).spec_mines(),
    {
        self.state = new_state
    }

    pub fn get_flag_count(&self) -> (r: usize)
        ensures
            r == self.spec_flag_count(),
    {
        self.flag_count
    }

    pub fn add_flag(&mut self)
        requires
            old(self).spec_flag_count() < usize::MAX,
        ensures
            final(self).spec_flag_count() == old(self).spec_flag_count() + 1,
            final(self).grid() == old(self).grid(),
            final(self).spec_width() == old(self).spec_width(),
            final(self).spec_height() == old(self).spec_height(),
            final(self).spec_hidden_count() == old(self).spec_hidden_count(),
            final(self).spec_mines() == old(self).spec_mines(),
            final(self).spec_game_state() == old(self).spec_game_state(),
    {
        self.flag_count += 1;
    }

    pub fn subtract_flag(&mut self)
        requires
            old(self).spec_flag_count() >= 1,
        ensures
            final(self).spec_flag_count() == old(self).spec_flag_count() - 1,
            final(self).grid() == old(self).grid(),
            final(self).spec_width() == old(self).spec_width(),
            final(self).spec_height() == old(self).spec_height(),
            final(self).spec_hidden_count() == old(self).spec_hidden_count(),
            final(self).spec_mines() == old(self).spec_mines(),
            final(self).spec_game_state() == old(self).spec_game_state(),
    {
        self.flag_count -= 1;
    }

    pub fn get_hidden_cell_count(&self) -> (r: usize)
        ensures
            r == self.spec_hidden_count(),
    {
        self.hidden_cell_count
    }

    pub fn add_hidden_cell(&mut self)
        requires
            old(self).spec_hidden_count() < usize::MAX,
        ensures
            final(self).spec_hidden_count() == old(self).spec_hidden_count() + 1,
            final(self).grid() == old(self).grid(),
            final(self).spec_width() == old(self).spec_width(),
            final(self).spec_height() == old(self).spec_height(),
            final(self).spec_flag_count() == old(self).spec_flag_count(),
            final(self).spec_mines() == old(self).spec_mines(),
            final(self).spec_game_state() == old(self).spec_game_state(),
    {
        self.hidden_cell_count += 1;
    }

    pub fn subtract_hidden_cell(&mut self)
        requires
            old(self).spec_hidden_count() >= 1,
        ensures
            final(self).spec_hidden_count() == old(self).spec_hidden_count() - 1,
            final(self).grid() == old(self).grid(),
            final(self).spec_width() == old(self).spec_width(),
            final(self).spec_height() == old(self).spec_height(),
            final(self).spec_flag_count() == old(self).spec_flag_count(),
            final(self).spec_mines() == old(self).spec_mines(),
            final(self).spec_game_state() == old(self).spec_game_state(),
    {
        self.hidden_cell_count -= 1;
    }

    /// Mines not yet flagged, by the player's count: may go negative when the
    /// player has flagged more cells than there are mines.
    pub fn get_remaining_mines(&self) -> (r: isize)
        requires
            self.wf(),
        ensures
            r as int == self.spec_mines() as int - self.spec_flag_count() as int,
    {
        proof {
            lemma_count_grid_nonneg(self.grid(), flagged_p());
        }
        self.mines as isize - self.flag_count as isize
    }

    /// The win test: every cell still in play is an unflagged mine, and
    /// flagging has not overshot the mine total.
    pub fn all_mines_found(&self) -> (r: bool)
        requires
            self.wf(),
        ensures
            r == (self.spec_hidden_count() as int == self.spec_mines() as int
                - self.spec_flag_count() as int && self.spec_flag_count() <= self.spec_mines()),
    {
        proof {
            lemma_count_grid_nonneg(self.grid(), flagged_p());
            lemma_count_grid_nonneg(self.grid(), hiddenish_p());
        }
        return self.hidden_cell_count as isize == (self.mines as isize - self.flag_count as isize)
            && self.flag_count <= self.mines;
    }
}

} // verus!
