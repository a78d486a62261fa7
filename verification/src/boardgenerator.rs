//! Board generation: mine placement with a first-click safety zone, and the
//! neighbor-mine counts of the non-mine cells.

use vstd::prelude::*;

use rand::seq::SliceRandom;

use crate::board::{
    count_grid, count_row, lemma_count_grid_update_cell, Board, CellDetails, CellState,
    GameState, MINE_VALUE,
};

verus! {

/// Chebyshev distance at most 1: `(x1, y1)` is `(x2, y2)` itself or one of
/// its 8 neighbors.
pub open spec fn spec_borders(x1: int, y1: int, x2: int, y2: int) -> bool {
    -1 <= x2 - x1 <= 1 && -1 <= y2 - y1 <= 1
}

pub open spec fn mine_at(g: Seq<Seq<CellDetails>>, x: int, y: int) -> bool {
    0 <= y < g.len() && 0 <= x < g[y].len() && g[y][x].value == MINE_VALUE
}

pub open spec fn mine_ind(g: Seq<Seq<CellDetails>>, x: int, y: int) -> int {
    if mine_at(g, x, y) {
        1int
    } else {
        0int
    }
}

/// Number of mines among the 8 neighbors, out-of-bounds neighbors absent.
pub open spec fn neighbor_mine_count(g: Seq<Seq<CellDetails>>, x: int, y: int) -> int {
    mine_ind(g, x - 1, y - 1) + mine_ind(g, x, y - 1) + mine_ind(g, x + 1, y - 1) + mine_ind(
        g,
        x - 1,
        y,
    ) + mine_ind(g, x + 1, y) + mine_ind(g, x - 1, y + 1) + mine_ind(g, x, y + 1) + mine_ind(
        g,
        x + 1,
        y + 1,
    )
}

/// A cell that holds the mine sentinel.
pub open spec fn mine_p() -> spec_fn(CellDetails) -> bool {
    |c: CellDetails| c.value == MINE_VALUE
}

/// How many mines a grid holds.
pub open spec fn total_mines(g: Seq<Seq<CellDetails>>) -> int {
    count_grid(g, mine_p())
}

/// Number of cells in rows `0..h` of column `x` outside the Chebyshev-1 zone
/// of `(sx, sy)`.
pub open spec fn candidate_count_col(x: int, h: int, sx: int, sy: int) -> int
    decreases h,
{
    if h <= 0 {
        0
    } else {
        candidate_count_col(x, h - 1, sx, sy) + if !spec_borders(x, h - 1, sx, sy) {
            1int
        } else {
            0int
        }
    }
}

/// Number of cells of a `w` by `h` grid outside the Chebyshev-1 zone of
/// `(sx, sy)`: the candidate set for mine placement.
pub open spec fn candidate_count(w: int, h: int, sx: int, sy: int) -> int
    decreases w,
{
    if w <= 0 {
        0
    } else {
        candidate_count(w - 1, h, sx, sy) + candidate_count_col(w - 1, h, sx, sy)
    }
}

/// A count is zero on a row where nothing satisfies the predicate.
pub proof fn lemma_count_row_none(row: Seq<CellDetails>, f: spec_fn(CellDetails) -> bool)
    requires
        forall|i: int| 0 <= i < row.len() ==> !f(#[trigger] row[i]),
    ensures
        count_row(row, f) == 0,
    decreases row.len(),
{
    if row.len() > 0 {
        lemma_count_row_none(row.drop_last(), f);
    }
}

/// A count is zero on a grid where nothing satisfies the predicate.
pub proof fn lemma_count_grid_none(g: Seq<Seq<CellDetails>>, f: spec_fn(CellDetails) -> bool)
    requires
        forall|y: int, x: int| 0 <= y < g.len() && 0 <= x < g[y].len() ==> !f(#[trigger] g[y][x]),
    ensures
        count_grid(g, f) == 0,
    decreases g.len(),
{
    if g.len() > 0 {
        lemma_count_grid_none(g.drop_last(), f);
        lemma_count_row_none(g.last(), f);
    }
}

/// Two rows on which the predicate agrees pointwise count the same.
pub proof fn lemma_count_row_congr(
    r1: Seq<CellDetails>,
    r2: Seq<CellDetails>,
    f: spec_fn(CellDetails) -> bool,
)
    requires
        r1.len() == r2.len(),
        forall|i: int| 0 <= i < r1.len() ==> f(#[trigger] r1[i]) == f(r2[i]),
    ensures
        count_row(r1, f) == count_row(r2, f),
    decreases r1.len(),
{
    if r1.len() > 0 {
        lemma_count_row_congr(r1.drop_last(), r2.drop_last(), f);
    }
}

/// Two grids on which the predicate agrees pointwise count the same.
pub proof fn lemma_count_grid_congr(
    g1: Seq<Seq<CellDetails>>,
    g2: Seq<Seq<CellDetails>>,
    f: spec_fn(CellDetails) -> bool,
)
    requires
        g1.len() == g2.len(),
        forall|y: int| 0 <= y < g1.len() ==> (#[trigger] g1[y]).len() == g2[y].len(),
        forall|y: int, x: int|
            0 <= y < g1.len() && 0 <= x < g1[y].len() ==> f(#[trigger] g1[y][x]) == f(g2[y][x]),
    ensures
        count_grid(g1, f) == count_grid(g2, f),
    decreases g1.len(),
{
    if g1.len() > 0 {
        lemma_count_grid_congr(g1.drop_last(), g2.drop_last(), f);
        lemma_count_row_congr(g1.last(), g2.last(), f);
    }
}

/// The neighbor-mine count reads only the mine set, so two grids with the
/// same mine set give every cell the same count.
pub proof fn lemma_nmc_depends_on_mines(
    g1: Seq<Seq<CellDetails>>,
    g2: Seq<Seq<CellDetails>>,
    x: int,
    y: int,
)
    requires
        g1.len() == g2.len(),
        forall|j: int| 0 <= j < g1.len() ==> (#[trigger] g1[j]).len() == g2[j].len(),
        forall|j: int, i: int|
            0 <= j < g1.len() && 0 <= i < g1[j].len() ==> ((#[trigger] g1[j][i]).value
                == MINE_VALUE <==> g2[j][i].value == MINE_VALUE),
    ensures
        neighbor_mine_count(g1, x, y) == neighbor_mine_count(g2, x, y),
{
    assert forall|a: int, b: int| #[trigger] mine_at(g1, a, b) == mine_at(g2, a, b) by {
        if 0 <= b < g1.len() && 0 <= a < g1[b].len() {
            assert(g1[b][a].value == MINE_VALUE <==> g2[b][a].value == MINE_VALUE);
        }
    }
    assert(mine_at(g1, x - 1, y - 1) == mine_at(g2, x - 1, y - 1));
    assert(mine_at(g1, x, y - 1) == mine_at(g2, x, y - 1));
    assert(mine_at(g1, x + 1, y - 1) == mine_at(g2, x + 1, y - 1));
    assert(mine_at(g1, x - 1, y) == mine_at(g2, x - 1, y));
    assert(mine_at(g1, x + 1, y) == mine_at(g2, x + 1, y));
    assert(mine_at(g1, x - 1, y + 1) == mine_at(g2, x - 1, y + 1));
    assert(mine_at(g1, x, y + 1) == mine_at(g2, x, y + 1));
    assert(mine_at(g1, x + 1, y + 1) == mine_at(g2, x + 1, y + 1));
}

/// Relies on rand 0.8's `SliceRandom::choose_multiple` (with the iterator
/// collected into a vector): it yields `min(amount, len)` elements of the
/// slice, chosen at random without repetition, i.e. from distinct indices.
#[verifier::external_body]
fn sample_distinct_cells(candidates: &Vec<(usize, usize)>, amount: usize) -> (r: Vec<
    (usize, usize),
>)
    ensures
        r@.len() == if amount as int <= candidates@.len() {
            amount as int
        } else {
            candidates@.len() as int
        },
        forall|i: int| 0 <= i < r@.len() ==> candidates@.contains(#[trigger] r@[i]),
        (forall|i: int, j: int|
            0 <= i < j < candidates@.len() ==> candidates@[i] != candidates@[j]) ==> (forall|
            i: int,
            j: int,
        |
            0 <= i < j < r@.len() ==> r@[i] != r@[j]),
{
    candidates.choose_multiple(&mut rand::thread_rng(), amount).cloned().collect()
}

/// Returns `true` if cell `(x1, y1) == (x2, y2)`, or is one of the 8 cells
/// surrounding `(x2, y2)`.
fn borders_cell(x1: usize, y1: usize, x2: usize, y2: usize) -> (r: bool)
    requires
        x1 as int + 1 <= usize::MAX as int,
        x2 as int + 1 <= usize::MAX as int,
        y1 as int + 1 <= usize::MAX as int,
        y2 as int + 1 <= usize::MAX as int,
    ensures
        r == spec_borders(x1 as int, y1 as int, x2 as int, y2 as int),
{
    return x1 <= x2 + 1 && x2 <= x1 + 1 && y1 <= y2 + 1 && y2 <= y1 + 1;
}

/// One probe of the unrolled neighborhood walk: out-of-bounds means no mine.
fn is_mine_cell(board: &Board, x: usize, y: usize) -> (r: bool)
    requires
        board.shape_wf(),
    ensures
        r == mine_at(board.grid(), x as int, y as int),
{
    if x < board.get_width() && y < board.get_height() {
        match board.get_value(x, y) {
            Ok(v) => v == MINE_VALUE,
            Err(_) => false,
        }
    } else {
        false
    }
}

pub fn count_surrounding_mines(x: usize, y: usize, board: &Board) -> (r: u8)
    requires
        board.shape_wf(),
        !board.spec_empty(),
        board.in_bounds(x as int, y as int),
    ensures
        r as int == neighbor_mine_count(board.grid(), x as int, y as int),
        r <= 8,
{
    let mut mine_count: u8 = 0;
    if x > 0 && y > 0 && is_mine_cell(board, x - 1, y - 1) {
        mine_count += 1;
    }
    if y > 0 && is_mine_cell(board, x, y - 1) {
        mine_count += 1;
    }
    if y > 0 && is_mine_cell(board, x + 1, y - 1) {
        mine_count += 1;
    }
    if x > 0 && is_mine_cell(board, x - 1, y) {
        mine_count += 1;
    }
    if is_mine_cell(board, x + 1, y) {
        mine_count += 1;
    }
    if x > 0 && is_mine_cell(board, x - 1, y + 1) {
        mine_count += 1;
    }
    if is_mine_cell(board, x, y + 1) {
        mine_count += 1;
    }
    if is_mine_cell(board, x + 1, y + 1) {
        mine_count += 1;
    }
    return mine_count;
}

/// Sets `mines` cells to hold a mine, all of them outside the Chebyshev-1
/// safety zone of `(start_x, start_y)`; capped at the number of cells outside
/// that zone.
#[verifier::loop_isolation(false)]
fn add_mines(board: &mut Board, mines: u32, start_x: u32, start_y: u32)
    requires
        old(board).wf(),
        !old(board).spec_empty(),
        old(board).spec_game_state() == GameState::Playing,
        (start_x as int) < old(board).spec_width() as int,
        (start_y as int) < old(board).spec_height() as int,
        forall|y: int, x: int|
            0 <= y < old(board).spec_height() as int && 0 <= x < old(board).spec_width() as int
                ==> #[trigger] old(board).grid()[y][x] == (CellDetails {
                state: CellState::Hidden,
                value: 0u8,
            }),
    ensures
        final(board).wf(),
        final(board).spec_width() == old(board).spec_width(),
        final(board).spec_height() == old(board).spec_height(),
        final(board).spec_flag_count() == old(board).spec_flag_count(),
        final(board).spec_hidden_count() == old(board).spec_hidden_count(),
        final(board).spec_mines() == old(board).spec_mines(),
        final(board).spec_game_state() == old(board).spec_game_state(),
        forall|y: int, x: int|
            0 <= y < final(board).spec_height() as int && 0 <= x < final(board).spec_width()
                as int ==> (#[trigger] final(board).grid()[y][x]).state == CellState::Hidden,
        forall|y: int, x: int|
            0 <= y < final(board).spec_height() as int && 0 <= x < final(board).spec_width()
                as int ==> ((#[trigger] final(board).grid()[y][x]).value == 0 || final(board).grid()[y][x].value == MINE_VALUE),
        forall|y: int, x: int|
            0 <= y < final(board).spec_height() as int && 0 <= x < final(board).spec_width()
                as int && (#[trigger] final(board).grid()[y][x]).value == MINE_VALUE
                ==> !spec_borders(x, y, start_x as int, start_y as int),
        total_mines(final(board).grid()) == ({
            let cands = candidate_count(
                old(board).spec_width() as int,
                old(board).spec_height() as int,
                start_x as int,
                start_y as int,
            );
            if mines as int <= cands {
                mines as int
            } else {
                cands
            }
        }),
{
    let w: usize = board.get_width();
    let h: usize = board.get_height();
    proof {
        assert(w as int <= w as int * h as int && h as int <= w as int * h as int)
            by (nonlinear_arith)
            requires w as int >= 1 && h as int >= 1;
    }
    let mut all_possible_cells: Vec<(usize, usize)> = Vec::new();
    let mut x: usize = 0;
    while x < w
        invariant
            x <= w,
            all_possible_cells@.len() == candidate_count(
                x as int,
                h as int,
                start_x as int,
                start_y as int,
            ),
            forall|k: int|
                0 <= k < all_possible_cells@.len() ==> {
                    &&& (#[trigger] all_possible_cells@[k]).0 < w
                    &&& all_possible_cells@[k].1 < h
                    &&& ((all_possible_cells@[k].0 as int) < x as int)
                    &&& !spec_borders(
                        all_possible_cells@[k].0 as int,
                        all_possible_cells@[k].1 as int,
                        start_x as int,
                        start_y as int,
                    )
                },
            forall|k1: int, k2: int|
                0 <= k1 < k2 < all_possible_cells@.len() ==> (#[trigger] all_possible_cells@[k1])
                    != (#[trigger] all_possible_cells@[k2]),
        decreases w - x,
    {
        let mut y: usize = 0;
        while y < h
            invariant
                x < w,
                y <= h,
                all_possible_cells@.len() == candidate_count(
                    x as int,
                    h as int,
                    start_x as int,
                    start_y as int,
                ) + candidate_count_col(x as int, y as int, start_x as int, start_y as int),
                forall|k: int|
                    0 <= k < all_possible_cells@.len() ==> {
                        &&& (#[trigger] all_possible_cells@[k]).0 < w
                        &&& all_possible_cells@[k].1 < h
                        &&& ((all_possible_cells@[k].0 as int) < x as int || (
                        all_possible_cells@[k].0 as int == x as int && (all_possible_cells@[k].1
                            as int) < y as int))
                        &&& !spec_borders(
                            all_possible_cells@[k].0 as int,
                            all_possible_cells@[k].1 as int,
                            start_x as int,
                            start_y as int,
                        )
                    },
                forall|k1: int, k2: int|
                    0 <= k1 < k2 < all_possible_cells@.len() ==> (
                    #[trigger] all_possible_cells@[k1]) != (#[trigger] all_possible_cells@[k2]),
            decreases h - y,
        {
            if !borders_cell(x, y, start_x as usize, start_y as usize) {
                all_possible_cells.push((x, y));
            }
            y = y + 1;
        }
        x = x + 1;
    }

    let sample = sample_distinct_cells(&all_possible_cells, mines as usize);
    proof {
        lemma_count_grid_none(board.grid(), mine_p());
    }

    let mut k: usize = 0;
    while k < sample.len()
        invariant
            k <= sample@.len(),
            forall|i: int|
                0 <= i < sample@.len() ==> all_possible_cells@.contains(#[trigger] sample@[i]),
            forall|i: int, j: int| 0 <= i < j < sample@.len() ==> sample@[i] != sample@[j],
            total_mines(board.grid()) == k as int,
            forall|y: int, x: int|
                0 <= y < h as int && 0 <= x < w as int && (#[trigger] board.grid()[y][x]).value
                    == MINE_VALUE ==> exists|i: int|
                    0 <= i < k as int && (#[trigger] sample@[i]).0 as int == x && sample@[i].1
                        as int == y,
            board.wf(),
            board.spec_width() == old(board).spec_width(),
            board.spec_height() == old(board).spec_height(),
            board.spec_flag_count() == old(board).spec_flag_count(),
            board.spec_hidden_count() == old(board).spec_hidden_count(),
            board.spec_mines() == old(board).spec_mines(),
            board.spec_game_state() == old(board).spec_game_state(),
            forall|y: int, x: int|
                0 <= y < h as int && 0 <= x < w as int ==> (#[trigger] board.grid()[y][x]).state
                    == CellState::Hidden,
            forall|y: int, x: int|
                0 <= y < h as int && 0 <= x < w as int ==> ((#[trigger] board.grid()[y][x]).value
                    == 0 || board.grid()[y][x].value == MINE_VALUE),
            forall|y: int, x: int|
                0 <= y < h as int && 0 <= x < w as int && (#[trigger] board.grid()[y][x]).value
                    == MINE_VALUE ==> !spec_borders(x, y, start_x as int, start_y as int),
        decreases sample@.len() - k,
    {
        let (mx, my): (usize, usize) = sample[k];
        let ghost gpre = board.grid();
        proof {
            assert(all_possible_cells@.contains(sample@[k as int]));
            let i = choose|i: int|
                0 <= i < all_possible_cells@.len() && all_possible_cells@[i] == sample@[k as int];
            assert(all_possible_cells@[i].0 < w && all_possible_cells@[i].1 < h);
            // the sampled cell holds no mine yet: a mine would mean an
            // earlier, equal sample, against the distinctness of the sample
            if gpre[my as int][mx as int].value == MINE_VALUE {
                let i2 = choose|i2: int|
                    0 <= i2 < k as int && (#[trigger] sample@[i2]).0 as int == mx as int
                        && sample@[i2].1 as int == my as int;
                assert(sample@[i2] == sample@[k as int]);
                assert(false);
            }
        }
        let res = board.set_value(mx, my, MINE_VALUE);
        proof {
            assert(res is Ok);
            lemma_count_grid_update_cell(
                gpre,
                mine_p(),
                mx as int,
                my as int,
                CellDetails {
                    state: gpre[my as int][mx as int].state,
                    value: MINE_VALUE,
                },
            );
            assert forall|y: int, x: int|
                0 <= y < h as int && 0 <= x < w as int && (#[trigger] board.grid()[y][x]).value
                    == MINE_VALUE implies exists|i: int|
                0 <= i < (k + 1) as int && (#[trigger] sample@[i]).0 as int == x && sample@[i].1
                    as int == y by {
                if y == my as int && x == mx as int {
                    assert(sample@[k as int].0 as int == x && sample@[k as int].1 as int == y);
                } else {
                    assert(gpre[y][x].value == MINE_VALUE);
                }
            }
        }
        k = k + 1;
    }
}

/// Calculate the numbers of the empty cells once the mines have been set.
#[verifier::loop_isolation(false)]
fn calculate_numbers(board: &mut Board)
    requires
        old(board).wf(),
        !old(board).spec_empty(),
        forall|y: int, x: int|
            0 <= y < old(board).spec_height() as int && 0 <= x < old(board).spec_width() as int
                ==> ((#[trigger] old(board).grid()[y][x]).value == 0 || old(board).grid()[y][x].value == MINE_VALUE),
    ensures
        final(board).wf(),
        final(board).spec_width() == old(board).spec_width(),
        final(board).spec_height() == old(board).spec_height(),
        final(board).spec_flag_count() == old(board).spec_flag_count(),
        final(board).spec_hidden_count() == old(board).spec_hidden_count(),
        final(board).spec_mines() == old(board).spec_mines(),
        final(board).spec_game_state() == old(board).spec_game_state(),
        forall|y: int, x: int|
            0 <= y < final(board).spec_height() as int && 0 <= x < final(board).spec_width()
                as int ==> (#[trigger] final(board).grid()[y][x]).state == old(board).grid()[y][x].state,
        forall|y: int, x: int|
            0 <= y < final(board).spec_height() as int && 0 <= x < final(board).spec_width()
                as int ==> ((#[trigger] final(board).grid()[y][x]).value == MINE_VALUE <==> old(board).grid()[y][x].value == MINE_VALUE),
        forall|y: int, x: int|
            0 <= y < final(board).spec_height() as int && 0 <= x < final(board).spec_width()
                as int && (#[trigger] final(board).grid()[y][x]).value != MINE_VALUE ==> final(board).grid()[y][x].value as int == neighbor_mine_count(final(board).grid(), x, y),
{
    let w: usize = board.get_width();
    let h: usize = board.get_height();
    let ghost g0 = old(board).grid();
    let mut x: usize = 0;
    while x < w
        invariant
            x <= w,
            board.wf(),
            !board.spec_empty(),
            board.spec_width() == old(board).spec_width(),
            board.spec_height() == old(board).spec_height(),
            board.spec_flag_count() == old(board).spec_flag_count(),
            board.spec_hidden_count() == old(board).spec_hidden_count(),
            board.spec_mines() == old(board).spec_mines(),
            board.spec_game_state() == old(board).spec_game_state(),
            forall|j: int, i: int|
                0 <= j < h as int && 0 <= i < w as int ==> (#[trigger] board.grid()[j][i]).state
                    == g0[j][i].state,
            forall|j: int, i: int|
                0 <= j < h as int && 0 <= i < w as int ==> ((#[trigger] board.grid()[j][i]).value
                    == MINE_VALUE <==> g0[j][i].value == MINE_VALUE),
            forall|j: int, i: int|
                0 <= j < h as int && 0 <= i < w as int && !(i < x as int) ==> (
                #[trigger] board.grid()[j][i]).value == g0[j][i].value,
            forall|j: int, i: int|
                0 <= j < h as int && 0 <= i < x as int && (#[trigger] board.grid()[j][i]).value
                    != MINE_VALUE ==> board.grid()[j][i].value as int == neighbor_mine_count(
                    board.grid(),
                    i,
                    j,
                ),
        decreases w - x,
    {
        let mut y: usize = 0;
        while y < h
            invariant
                x < w,
                y <= h,
                board.wf(),
                !board.spec_empty(),
                board.spec_width() == old(board).spec_width(),
                board.spec_height() == old(board).spec_height(),
                board.spec_flag_count() == old(board).spec_flag_count(),
                board.spec_hidden_count() == old(board).spec_hidden_count(),
                board.spec_mines() == old(board).spec_mines(),
                board.spec_game_state() == old(board).spec_game_state(),
                forall|j: int, i: int|
                    0 <= j < h as int && 0 <= i < w as int ==> (
                    #[trigger] board.grid()[j][i]).state == g0[j][i].state,
                forall|j: int, i: int|
                    0 <= j < h as int && 0 <= i < w as int ==> ((
                    #[trigger] board.grid()[j][i]).value == MINE_VALUE <==> g0[j][i].value
                        == MINE_VALUE),
                forall|j: int, i: int|
                    0 <= j < h as int && 0 <= i < w as int && !(i < x as int || (i == x as int && j
                        < y as int)) ==> (#[trigger] board.grid()[j][i]).value == g0[j][i].value,
                forall|j: int, i: int|
                    0 <= j < h as int && 0 <= i < w as int && (i < x as int || (i == x as int && j
                        < y as int)) && (#[trigger] board.grid()[j][i]).value != MINE_VALUE
                        ==> board.grid()[j][i].value as int == neighbor_mine_count(
                        board.grid(),
                        i,
                        j,
                    ),
            decreases h - y,
        {
            let ghost gpre = board.grid();
            let mut wrote: bool = false;
            match board.get_value(x, y) {
                Ok(v) => {
                    if v == 0 {
                        let c = count_surrounding_mines(x, y, board);
                        let res = board.set_value(x, y, c);
                        proof {
                            assert(res is Ok);
                        }
                        wrote = true;
                    }
                },
                Err(_) => {},
            }
            proof {
                let gnow = board.grid();
                assert forall|j: int, i: int|
                    0 <= j < h as int && 0 <= i < w as int implies ((#[trigger] gnow[j][i]).value
                    == MINE_VALUE <==> gpre[j][i].value == MINE_VALUE) by {
                    if wrote && j == y as int && i == x as int {
                        assert(gpre[j][i].value == 0);
                    }
                }
                assert forall|j: int, i: int|
                    0 <= j < h as int && 0 <= i < w as int implies neighbor_mine_count(gnow, i, j)
                    == neighbor_mine_count(gpre, i, j) by {
                    lemma_nmc_depends_on_mines(gnow, gpre, i, j);
                }
            }
            y = y + 1;
        }
        x = x + 1;
    }
}

/// Generates a new board with the given dimensions, where the cell at
/// `(first_x, first_y)` is guaranteed to hold no mine and to border none:
/// mines are sampled uniformly from the cells outside that safety zone, the
/// requested count capped at the size of that candidate set. Every non-mine
/// cell's value is the count of mines among its 8 neighbors. All cells are
/// hidden after generation; the caller pokes the start cell itself.
///
/// Returns `None` (and no board) when the dimensions are zero or the
/// first-click coordinate is out of bounds.
pub fn generate_board(width: u32, height: u32, mines: u32, first_x: u32, first_y: u32) -> (r:
    Option<Board>)
    requires
        width as int * height as int <= isize::MAX as int,
        mines as int <= isize::MAX as int,
    ensures
        r is None <==> (width == 0 || height == 0 || first_x >= width || first_y >= height),
        r matches Some(b) ==> {
            &&& b.wf()
            &&& b.spec_width() == width as usize
            &&& b.spec_height() == height as usize
            &&& b.spec_mines() == mines as usize
            &&& b.spec_flag_count() == 0
            &&& b.spec_hidden_count() as int == width as int * height as int
            &&& b.spec_game_state() == GameState::Playing
            &&& forall|y: int, x: int|
                0 <= y < height as int && 0 <= x < width as int ==> (
                #[trigger] b.grid()[y][x]).state == CellState::Hidden
            &&& forall|y: int, x: int|
                0 <= y < height as int && 0 <= x < width as int && (
                #[trigger] b.grid()[y][x]).value == MINE_VALUE ==> !spec_borders(
                    x,
                    y,
                    first_x as int,
                    first_y as int,
                )
            &&& forall|y: int, x: int|
                0 <= y < height as int && 0 <= x < width as int && (
                #[trigger] b.grid()[y][x]).value != MINE_VALUE ==> b.grid()[y][x].value as int
                    == neighbor_mine_count(b.grid(), x, y)
            &&& total_mines(b.grid()) == ({
                let cands = candidate_count(
                    width as int,
                    height as int,
                    first_x as int,
                    first_y as int,
                );
                if mines as int <= cands {
                    mines as int
                } else {
                    cands
                }
            })
        },
{
    if width == 0 || height == 0 || first_x >= width || first_y >= height {
        return None;
    }

    let mut board = Board::new(width, height, mines);

    // Add mines to the generated board
    add_mines(&mut board, mines, first_x, first_y);

    let ghost g_mined = board.grid();

    // Add values
    calculate_numbers(&mut board);
    proof {
        // the value pass rewrites counts only, so the mine total is unchanged
        assert forall|y: int, x: int|
            0 <= y < g_mined.len() && 0 <= x < g_mined[y].len() implies mine_p()(
            #[trigger] g_mined[y][x]) == mine_p()(board.grid()[y][x]) by {
            assert(g_mined[y][x].value == MINE_VALUE <==> board.grid()[y][x].value == MINE_VALUE);
        }
        lemma_count_grid_congr(g_mined, board.grid(), mine_p());
    }

    Some(board)
}

} // verus!
