//! The reveal/mark engine: poke (reveal with flood fill, loss disclosure and
//! quick-uncover), mark (the flag cycle), and win detection, each reported as
//! a diff of cell-state changes.

use vstd::prelude::*;

use crate::board::{
    flagged_count, flagged_p, hiddenish_count, hiddenish_p, lemma_count_grid_at,
    lemma_count_grid_nonneg, lemma_count_grid_update_cell, Board, CellDetails, CellState,
    GameState, MINE_VALUE,
};
use crate::settings::Settings;

verus! {

/// One recorded cell-state change, for incremental rendering.
pub struct BoardChange {
    pub x: usize,
    pub y: usize,
    pub state: Option<CellState>,
}

/// The outcome of a poke or mark: the updated aggregates and the diff.
pub struct GameChange {
    pub flag_count: usize,
    pub hidden_cell_count: usize,
    pub mines_remaining: isize,
    pub game_state: GameState,
    pub changes: Vec<BoardChange>,
}

// ------------------------------------------------------------------
// The per-cell transition bookkeeping shared by poke and mark.
// ------------------------------------------------------------------

/// The transitions the engine performs; every one of them starts from a cell
/// the player can still act on.
pub open spec fn legal_transition(o: CellState, n: CellState) -> bool {
    ||| (o == CellState::Hidden && (n == CellState::Flagged || n == CellState::ShowValue || n
        == CellState::ShowMineExploded))
    ||| (o == CellState::Flagged && (n == CellState::Questioned || n == CellState::Hidden || n
        == CellState::ShowInvalidMine))
    ||| (o == CellState::Questioned && (n == CellState::Hidden || n == CellState::ShowValue))
}

pub open spec fn state_hiddenish(s: CellState) -> bool {
    s == CellState::Hidden || s == CellState::Questioned
}

pub open spec fn hiddenish_ind(s: CellState) -> int {
    if state_hiddenish(s) {
        1int
    } else {
        0int
    }
}

pub open spec fn flagged_ind(s: CellState) -> int {
    if s == CellState::Flagged {
        1int
    } else {
        0int
    }
}

/// How a transition moves `flag_count`: the change of the flagged indicator.
pub open spec fn flag_delta(o: CellState, n: CellState) -> int {
    flagged_ind(n) - flagged_ind(o)
}

/// How a transition moves `hidden_cell_count`: the change of the in-play
/// indicator, so the counter tracks the in-play set exactly.
pub open spec fn hidden_delta(o: CellState, n: CellState) -> int {
    hiddenish_ind(n) - hiddenish_ind(o)
}

// ------------------------------------------------------------------
// Recording changes.
// ------------------------------------------------------------------

/// `post` extends `pre` by exactly the cells whose state differs between the
/// two grids, each entry carrying the new state.
pub open spec fn changes_recorded(
    g0: Seq<Seq<CellDetails>>,
    g1: Seq<Seq<CellDetails>>,
    pre: Seq<BoardChange>,
    post: Seq<BoardChange>,
) -> bool {
    &&& pre.len() <= post.len()
    &&& forall|i: int| 0 <= i < pre.len() ==> post[i] == pre[i]
    &&& forall|k: int|
        pre.len() <= k < post.len() ==> {
            &&& ((#[trigger] post[k]).y as int) < g1.len()
            &&& (post[k].x as int) < g1[post[k].y as int].len()
            &&& g1[post[k].y as int][post[k].x as int].state != g0[post[k].y as int][post[k].x
                as int].state
            &&& post[k].state == Some(g1[post[k].y as int][post[k].x as int].state)
        }
    &&& forall|y: int, x: int|
        0 <= y < g1.len() && 0 <= x < g1[y].len() && (#[trigger] g1[y][x]).state
            != g0[y][x].state ==> exists|k: int|
            pre.len() <= k < post.len() && (#[trigger] post[k]).x as int == x && post[k].y as int
                == y
    &&& forall|k1: int, k2: int|
        pre.len() <= k1 < k2 < post.len() ==> ((#[trigger] post[k1]).x != (
        #[trigger] post[k2]).x || post[k1].y != post[k2].y)
}

/// Change records compose, as long as the second step leaves alone every cell
/// the first step changed (within one operation no cell changes twice).
pub proof fn lemma_changes_recorded_trans(
    g0: Seq<Seq<CellDetails>>,
    g1: Seq<Seq<CellDetails>>,
    g2: Seq<Seq<CellDetails>>,
    c0: Seq<BoardChange>,
    c1: Seq<BoardChange>,
    c2: Seq<BoardChange>,
)
    requires
        changes_recorded(g0, g1, c0, c1),
        changes_recorded(g1, g2, c1, c2),
        g1.len() == g0.len(),
        g2.len() == g1.len(),
        forall|y: int| 0 <= y < g1.len() ==> (#[trigger] g1[y]).len() == g0[y].len(),
        forall|y: int| 0 <= y < g2.len() ==> (#[trigger] g2[y]).len() == g1[y].len(),
        forall|y: int, x: int|
            0 <= y < g1.len() && 0 <= x < g1[y].len() && (#[trigger] g1[y][x]).state
                != g0[y][x].state ==> g2[y][x] == g1[y][x],
    ensures
        changes_recorded(g0, g2, c0, c2),
{
    assert forall|k1: int, k2: int| c0.len() <= k1 < k2 < c2.len() implies ((
    #[trigger] c2[k1]).x != (#[trigger] c2[k2]).x || c2[k1].y != c2[k2].y) by {
        if k2 < c1.len() {
            // both in the first segment
        } else if k1 >= c1.len() {
            // both in the second segment
        } else {
            // the first segment's cell changed in the first step, so the
            // second step left it alone and cannot have recorded it again
            assert(c2[k1] == c1[k1]);
            let bx = c2[k1].x as int;
            let by = c2[k1].y as int;
            assert(g1[by][bx].state != g0[by][bx].state);
            assert(g2[by][bx] == g1[by][bx]);
            if c2[k2].x == c2[k1].x && c2[k2].y == c2[k1].y {
                assert(g2[by][bx].state != g1[by][bx].state);
            }
        }
    }
    assert forall|y: int, x: int|
        0 <= y < g2.len() && 0 <= x < g2[y].len() && (#[trigger] g2[y][x]).state
            != g0[y][x].state implies exists|k: int|
        c0.len() <= k < c2.len() && (#[trigger] c2[k]).x as int == x && c2[k].y as int == y by {
        if g1[y][x].state != g0[y][x].state {
            let k = choose|k: int|
                c0.len() <= k < c1.len() && (#[trigger] c1[k]).x as int == x && c1[k].y as int
                    == y;
            assert(c2[k] == c1[k]);
            assert(c0.len() <= k < c2.len() && c2[k].x as int == x && c2[k].y as int == y);
        } else {
            let k = choose|k: int|
                c1.len() <= k < c2.len() && (#[trigger] c2[k]).x as int == x && c2[k].y as int
                    == y;
            assert(c0.len() <= k < c2.len() && c2[k].x as int == x && c2[k].y as int == y);
        }
    }
}

/// One applied transition yields one record.
pub proof fn lemma_changes_recorded_one(
    g1: Seq<Seq<CellDetails>>,
    g2: Seq<Seq<CellDetails>>,
    pre: Seq<BoardChange>,
    x: usize,
    y: usize,
    n: CellState,
)
    requires
        0 <= (y as int) < g1.len(),
        0 <= (x as int) < g1[y as int].len(),
        g2 == g1.update(
            y as int,
            g1[y as int].update(
                x as int,
                CellDetails { state: n, value: g1[y as int][x as int].value },
            ),
        ),
        n != g1[y as int][x as int].state,
    ensures
        changes_recorded(g1, g2, pre, pre.push(BoardChange { x, y, state: Some(n) })),
{
    let post = pre.push(BoardChange { x, y, state: Some(n) });
    assert forall|b: int, a: int|
        0 <= b < g2.len() && 0 <= a < g2[b].len() && (#[trigger] g2[b][a]).state
            != g1[b][a].state implies exists|k: int|
        pre.len() <= k < post.len() && (#[trigger] post[k]).x as int == a && post[k].y as int
            == b by {
        assert(a == x as int && b == y as int);
        assert(post[pre.len() as int].x as int == a && post[pre.len() as int].y as int == b);
    }
}

/// Applies one visibility transition at `(x, y)`, records it, and books the
/// matching counter movements, so that `flag_count` and `hidden_cell_count`
/// keep tracking the flagged and the in-play cells exactly.
fn add_state_change(
    x: usize,
    y: usize,
    state: CellState,
    changes: &mut Vec<BoardChange>,
    board: &mut Board,
)
    requires
        old(board).wf(),
        !old(board).spec_empty(),
        old(board).in_bounds(x as int, y as int),
        legal_transition(old(board).grid()[y as int][x as int].state, state),
    ensures
        final(board).wf(),
        final(board).spec_width() == old(board).spec_width(),
        final(board).spec_height() == old(board).spec_height(),
        final(board).spec_mines() == old(board).spec_mines(),
        final(board).spec_game_state() == old(board).spec_game_state(),
        final(board).grid() == old(board).grid().update(
            y as int,
            old(board).grid()[y as int].update(
                x as int,
                CellDetails { state, value: old(board).grid()[y as int][x as int].value },
            ),
        ),
        final(board).spec_flag_count() as int == old(board).spec_flag_count() as int + flag_delta(
            old(board).grid()[y as int][x as int].state,
            state,
        ),
        final(board).spec_hidden_count() as int == old(board).spec_hidden_count() as int
            + hidden_delta(old(board).grid()[y as int][x as int].state, state),
        final(changes)@ == old(changes)@.push(
            BoardChange { x, y, state: Some(state) },
        ),
{
    let ghost g0 = old(board).grid();
    if let Ok(old_state) = board.get_state(x, y) {
        let res = board.set_state(x, y, state);
        if let Ok(()) = res {
            proof {
                let new_cell = CellDetails { state, value: g0[y as int][x as int].value };
                lemma_count_grid_update_cell(g0, flagged_p(), x as int, y as int, new_cell);
                lemma_count_grid_update_cell(g0, hiddenish_p(), x as int, y as int, new_cell);
                if old_state == CellState::Hidden || old_state == CellState::Questioned {
                    lemma_count_grid_at(g0, hiddenish_p(), x as int, y as int);
                }
                if old_state == CellState::Flagged {
                    lemma_count_grid_at(g0, flagged_p(), x as int, y as int);
                }
                lemma_count_grid_nonneg(g0, flagged_p());
                lemma_count_grid_nonneg(g0, hiddenish_p());
            }
            changes.push(BoardChange { x, y, state: Some(state) });
            if old_state != CellState::Flagged && state == CellState::Flagged {
                board.add_flag();
            } else if old_state == CellState::Flagged && state != CellState::Flagged {
                board.subtract_flag();
            }
            let was_in_play = old_state == CellState::Hidden || old_state
                == CellState::Questioned;
            let is_in_play = state == CellState::Hidden || state == CellState::Questioned;
            if was_in_play && !is_in_play {
                board.subtract_hidden_cell();
            } else if !was_in_play && is_in_play {
                board.add_hidden_cell();
            }
        }
    }
}

// ------------------------------------------------------------------
// The two pointwise sweeps: loss disclosure and the win auto-flag.
// ------------------------------------------------------------------

/// What the loss disclosure does to one cell: hidden and questioned mines are
/// revealed, flags on non-mines are marked invalid, all else is untouched.
pub open spec fn disclosed_cell(c: CellDetails) -> CellDetails {
    if (c.state == CellState::Hidden || c.state == CellState::Questioned) && c.value
        == MINE_VALUE {
        CellDetails { state: CellState::ShowValue, value: c.value }
    } else if c.state == CellState::Flagged && c.value != MINE_VALUE {
        CellDetails { state: CellState::ShowInvalidMine, value: c.value }
    } else {
        c
    }
}

/// What the win auto-flag does to one cell: still-hidden mines are flagged.
pub open spec fn won_cell(c: CellDetails) -> CellDetails {
    if c.state == CellState::Hidden && c.value == MINE_VALUE {
        CellDetails { state: CellState::Flagged, value: c.value }
    } else {
        c
    }
}

/// Unveil all mines that are still hidden or question-marked, and mark every
/// flag that sits on a non-mine cell as invalid.
#[verifier::loop_isolation(false)]
fn show_all_mines(board: &mut Board, changes: &mut Vec<BoardChange>)
    requires
        old(board).wf(),
        !old(board).spec_empty(),
    ensures
        final(board).wf(),
        final(board).spec_width() == old(board).spec_width(),
        final(board).spec_height() == old(board).spec_height(),
        final(board).spec_mines() == old(board).spec_mines(),
        final(board).spec_game_state() == old(board).spec_game_state(),
        forall|j: int, i: int|
            0 <= j < old(board).spec_height() as int && 0 <= i < old(board).spec_width() as int
                ==> #[trigger] final(board).grid()[j][i] == disclosed_cell(
                old(board).grid()[j][i],
            ),
        hiddenish_count(final(board).grid()) <= hiddenish_count(old(board).grid()),
        changes_recorded(old(board).grid(), final(board).grid(), old(changes)@, final(changes)@),
{
    let w: usize = board.get_width();
    let h: usize = board.get_height();
    let ghost g_in = old(board).grid();
    let ghost c_in = old(changes)@;
    let mut x: usize = 0;
    while x < w
        invariant
            x <= w,
            board.wf(),
            !board.spec_empty(),
            board.spec_width() == old(board).spec_width(),
            board.spec_height() == old(board).spec_height(),
            board.spec_mines() == old(board).spec_mines(),
            board.spec_game_state() == old(board).spec_game_state(),
            forall|j: int, i: int|
                0 <= j < h as int && 0 <= i < w as int && i < x as int
                    ==> #[trigger] board.grid()[j][i] == disclosed_cell(g_in[j][i]),
            forall|j: int, i: int|
                0 <= j < h as int && 0 <= i < w as int && !(i < x as int)
                    ==> #[trigger] board.grid()[j][i] == g_in[j][i],
            hiddenish_count(board.grid()) <= hiddenish_count(g_in),
            changes_recorded(g_in, board.grid(), c_in, changes@),
        decreases w - x,
    {
        let mut y: usize = 0;
        while y < h
            invariant
                x < w,
                y <= h,
                board.wf(),
                !board.spec_empty(),
                board.spec_width() == old(board).spec_width(),
                board.spec_height() == old(board).spec_height(),
                board.spec_mines() == old(board).spec_mines(),
                board.spec_game_state() == old(board).spec_game_state(),
                forall|j: int, i: int|
                    0 <= j < h as int && 0 <= i < w as int && (i < x as int || (i == x as int && j
                        < y as int)) ==> #[trigger] board.grid()[j][i] == disclosed_cell(
                        g_in[j][i],
                    ),
                forall|j: int, i: int|
                    0 <= j < h as int && 0 <= i < w as int && !(i < x as int || (i == x as int && j
                        < y as int)) ==> #[trigger] board.grid()[j][i] == g_in[j][i],
                hiddenish_count(board.grid()) <= hiddenish_count(g_in),
                changes_recorded(g_in, board.grid(), c_in, changes@),
            decreases h - y,
        {
            let ghost gb = board.grid();
            let ghost cb = changes@;
            if let Ok(state) = board.get_state(x, y) {
                // Unveil all mines that are still hidden or question-marked
                if state == CellState::Hidden || state == CellState::Questioned {
                    if let Ok(v) = board.get_value(x, y) {
                        if v == MINE_VALUE {
                            add_state_change(x, y, CellState::ShowValue, changes, board);
                            proof {
                                lemma_count_grid_update_cell(
                                    gb,
                                    hiddenish_p(),
                                    x as int,
                                    y as int,
                                    CellDetails {
                                        state: CellState::ShowValue,
                                        value: gb[y as int][x as int].value,
                                    },
                                );
                                lemma_changes_recorded_one(
                                    gb,
                                    board.grid(),
                                    cb,
                                    x,
                                    y,
                                    CellState::ShowValue,
                                );
                                lemma_changes_recorded_trans(g_in, gb, board.grid(), c_in, cb, changes@);
                            }
                        }
                    }
                } else if state == CellState::Flagged {
                    if let Ok(v) = board.get_value(x, y) {
                        if v != MINE_VALUE {
                            add_state_change(x, y, CellState::ShowInvalidMine, changes, board);
                            proof {
                                lemma_count_grid_update_cell(
                                    gb,
                                    hiddenish_p(),
                                    x as int,
                                    y as int,
                                    CellDetails {
                                        state: CellState::ShowInvalidMine,
                                        value: gb[y as int][x as int].value,
                                    },
                                );
                                lemma_changes_recorded_one(
                                    gb,
                                    board.grid(),
                                    cb,
                                    x,
                                    y,
                                    CellState::ShowInvalidMine,
                                );
                                lemma_changes_recorded_trans(g_in, gb, board.grid(), c_in, cb, changes@);
                            }
                        }
                    }
                }
            }
            y = y + 1;
        }
        x = x + 1;
    }
}

/// After a win, flag every mine the player left hidden (cosmetic completion).
#[verifier::loop_isolation(false)]
fn flag_remaining_mines(board: &mut Board, changes: &mut Vec<BoardChange>)
    requires
        old(board).wf(),
    ensures
        final(board).wf(),
        final(board).spec_width() == old(board).spec_width(),
        final(board).spec_height() == old(board).spec_height(),
        final(board).spec_mines() == old(board).spec_mines(),
        final(board).spec_game_state() == old(board).spec_game_state(),
        forall|j: int, i: int|
            0 <= j < old(board).spec_height() as int && 0 <= i < old(board).spec_width() as int
                ==> #[trigger] final(board).grid()[j][i] == won_cell(old(board).grid()[j][i]),
        changes_recorded(old(board).grid(), final(board).grid(), old(changes)@, final(changes)@),
{
    let w: usize = board.get_width();
    let h: usize = board.get_height();
    let ghost g_in = old(board).grid();
    let ghost c_in = old(changes)@;
    let mut x: usize = 0;
    while x < w
        invariant
            x <= w,
            board.wf(),
            board.spec_width() == old(board).spec_width(),
            board.spec_height() == old(board).spec_height(),
            board.spec_mines() == old(board).spec_mines(),
            board.spec_game_state() == old(board).spec_game_state(),
            forall|j: int, i: int|
                0 <= j < h as int && 0 <= i < w as int && i < x as int
                    ==> #[trigger] board.grid()[j][i] == won_cell(g_in[j][i]),
            forall|j: int, i: int|
                0 <= j < h as int && 0 <= i < w as int && !(i < x as int)
                    ==> #[trigger] board.grid()[j][i] == g_in[j][i],
            changes_recorded(g_in, board.grid(), c_in, changes@),
        decreases w - x,
    {
        let mut y: usize = 0;
        while y < h
            invariant
                x < w,
                y <= h,
                board.wf(),
                board.spec_width() == old(board).spec_width(),
                board.spec_height() == old(board).spec_height(),
                board.spec_mines() == old(board).spec_mines(),
                board.spec_game_state() == old(board).spec_game_state(),
                forall|j: int, i: int|
                    0 <= j < h as int && 0 <= i < w as int && (i < x as int || (i == x as int && j
                        < y as int)) ==> #[trigger] board.grid()[j][i] == won_cell(g_in[j][i]),
                forall|j: int, i: int|
                    0 <= j < h as int && 0 <= i < w as int && !(i < x as int || (i == x as int && j
                        < y as int)) ==> #[trigger] board.grid()[j][i] == g_in[j][i],
                changes_recorded(g_in, board.grid(), c_in, changes@),
            decreases h - y,
        {
            let ghost gb = board.grid();
            let ghost cb = changes@;
            if let Ok(state) = board.get_state(x, y) {
                if state == CellState::Hidden {
                    if let Ok(v) = board.get_value(x, y) {
                        if v == MINE_VALUE {
                            add_state_change(x, y, CellState::Flagged, changes, board);
                            proof {
                                lemma_changes_recorded_one(gb, board.grid(), cb, x, y, CellState::Flagged);
                                lemma_changes_recorded_trans(g_in, gb, board.grid(), c_in, cb, changes@);
                            }
                        }
                    }
                }
            }
            y = y + 1;
        }
        x = x + 1;
    }
}

/// Number of flags among the 8 neighbors, used by the protected quick-uncover.
pub open spec fn flag_at(g: Seq<Seq<CellDetails>>, x: int, y: int) -> bool {
    0 <= y < g.len() && 0 <= x < g[y].len() && g[y][x].state == CellState::Flagged
}

pub open spec fn flag_ind(g: Seq<Seq<CellDetails>>, x: int, y: int) -> int {
    if flag_at(g, x, y) {
        1int
    } else {
        0int
    }
}

pub open spec fn neighbor_flag_count(g: Seq<Seq<CellDetails>>, x: int, y: int) -> int {
    flag_ind(g, x - 1, y - 1) + flag_ind(g, x, y - 1) + flag_ind(g, x + 1, y - 1) + flag_ind(
        g,
        x - 1,
        y,
    ) + flag_ind(g, x + 1, y) + flag_ind(g, x - 1, y + 1) + flag_ind(g, x, y + 1) + flag_ind(
        g,
        x + 1,
        y + 1,
    )
}

/// One probe of the unrolled neighborhood walk: out of bounds means no flag.
fn is_flagged_cell(board: &Board, x: usize, y: usize) -> (r: bool)
    requires
        board.shape_wf(),
    ensures
        r == flag_at(board.grid(), x as int, y as int),
{
    if x < board.get_width() && y < board.get_height() {
        match board.get_state(x, y) {
            Ok(s) => s == CellState::Flagged,
            Err(_) => false,
        }
    } else {
        false
    }
}

pub fn count_flags(x: usize, y: usize, board: &Board) -> (r: u8)
    requires
        board.shape_wf(),
        !board.spec_empty(),
        board.in_bounds(x as int, y as int),
    ensures
        r as int == neighbor_flag_count(board.grid(), x as int, y as int),
        r <= 8,
{
    let mut flag_count: u8 = 0;
    if x > 0 && y > 0 && is_flagged_cell(board, x - 1, y - 1) {
        flag_count += 1;
    }
    if y > 0 && is_flagged_cell(board, x, y - 1) {
        flag_count += 1;
    }
    if y > 0 && is_flagged_cell(board, x + 1, y - 1) {
        flag_count += 1;
    }
    if x > 0 && is_flagged_cell(board, x - 1, y) {
        flag_count += 1;
    }
    if is_flagged_cell(board, x + 1, y) {
        flag_count += 1;
    }
    if x > 0 && is_flagged_cell(board, x - 1, y + 1) {
        flag_count += 1;
    }
    if is_flagged_cell(board, x, y + 1) {
        flag_count += 1;
    }
    if is_flagged_cell(board, x + 1, y + 1) {
        flag_count += 1;
    }
    return flag_count;
}

// ------------------------------------------------------------------
// Poke: reveal, flood fill, loss disclosure, quick-uncover.
// ------------------------------------------------------------------

/// `(x1, y1)` is one of the 8 cells around `(x2, y2)`.
pub open spec fn adjacent(x1: int, y1: int, x2: int, y2: int) -> bool {
    crate::boardgenerator::spec_borders(x1, y1, x2, y2) && !(x1 == x2 && y1 == y2)
}

/// The worklist, seen as a set of coordinates.
pub open spec fn ws_contains(ws: Seq<(usize, usize)>, a: int, b: int) -> bool {
    exists|k: int| 0 <= k < ws.len() && (#[trigger] ws[k]).0 as int == a && ws[k].1 as int == b
}

pub open spec fn grid_same_dims(g0: Seq<Seq<CellDetails>>, g1: Seq<Seq<CellDetails>>) -> bool {
    g1.len() == g0.len() && forall|y: int|
        0 <= y < g0.len() ==> (#[trigger] g1[y]).len() == g0[y].len()
}

/// The operation turned the hidden zero cell at `(x, y)` into a shown one.
pub open spec fn revealed_zero(
    g0: Seq<Seq<CellDetails>>,
    g1: Seq<Seq<CellDetails>>,
    x: int,
    y: int,
) -> bool {
    &&& 0 <= y < g0.len() && 0 <= x < g0[y].len()
    &&& g0[y][x].state == CellState::Hidden
    &&& g0[y][x].value == 0
    &&& g1[y][x].state == CellState::ShowValue
}

/// A permanently revealed state: the reveal engine never touches such a cell
/// again.
pub open spec fn settled(s: CellState) -> bool {
    s == CellState::ShowValue || s == CellState::ShowMineExploded || s
        == CellState::ShowInvalidMine
}

/// Between `g0` and `g1` only reveals happened: every cell is untouched, or
/// was a hidden non-mine and is now shown. In particular flagged and
/// questioned cells are untouched and no mine is revealed.
pub open spec fn only_reveals(g0: Seq<Seq<CellDetails>>, g1: Seq<Seq<CellDetails>>) -> bool {
    forall|y: int, x: int|
        0 <= y < g0.len() && 0 <= x < g0[y].len() ==> ((#[trigger] g1[y][x]) == g0[y][x] || (
        g0[y][x].state == CellState::Hidden && g0[y][x].value != MINE_VALUE && g1[y][x] == (
        CellDetails { state: CellState::ShowValue, value: g0[y][x].value })))
}

/// Like `only_reveals`, but hidden mines may additionally have been flagged:
/// what a poke that does not lose the game does to the grid (the win
/// evaluation flags the remaining mines).
pub open spec fn reveals_and_autoflags(
    g0: Seq<Seq<CellDetails>>,
    g1: Seq<Seq<CellDetails>>,
) -> bool {
    forall|y: int, x: int|
        0 <= y < g0.len() && 0 <= x < g0[y].len() ==> ((#[trigger] g1[y][x]) == g0[y][x] || (
        g0[y][x].state == CellState::Hidden && g0[y][x].value != MINE_VALUE && g1[y][x] == (
        CellDetails { state: CellState::ShowValue, value: g0[y][x].value })) || (
        g0[y][x].state == CellState::Hidden && g0[y][x].value == MINE_VALUE && g1[y][x] == (
        CellDetails { state: CellState::Flagged, value: g0[y][x].value })))
}

/// The cell `(i, j)` borders a zero cell that the operation taking `g0` to
/// `g1` revealed: with `only_reveals`, this confines a flood's reveals to the
/// revealed zero region and its border.
pub open spec fn borders_revealed_zero(
    g0: Seq<Seq<CellDetails>>,
    g1: Seq<Seq<CellDetails>>,
    i: int,
    j: int,
) -> bool {
    exists|x2: int, y2: int|
        #[trigger] revealed_zero(g0, g1, x2, y2) && adjacent(i, j, x2, y2)
}

/// A revealed zero stays one: the witness persists across a further step
/// that keeps every shown cell shown.
proof fn lemma_borders_rz_monotone(
    g0: Seq<Seq<CellDetails>>,
    g1: Seq<Seq<CellDetails>>,
    g2: Seq<Seq<CellDetails>>,
    i: int,
    j: int,
)
    requires
        borders_revealed_zero(g0, g1, i, j),
        forall|y: int, x: int|
            0 <= y < g0.len() && 0 <= x < g0[y].len() && (#[trigger] g1[y][x]).state
                == CellState::ShowValue ==> g2[y][x].state == CellState::ShowValue,
    ensures
        borders_revealed_zero(g0, g2, i, j),
{
    let (x2, y2): (int, int) = choose|x2: int, y2: int|
        #[trigger] revealed_zero(g0, g1, x2, y2) && adjacent(i, j, x2, y2);
    assert(revealed_zero(g0, g2, x2, y2));
}

/// An element of the worklist survives a pop (with possible appends), unless
/// it was the popped element itself.
proof fn lemma_ws_pop(pre: Seq<(usize, usize)>, post: Seq<(usize, usize)>, a: int, b: int)
    requires
        pre.len() > 0,
        ws_contains(pre, a, b),
        post.len() >= pre.len() - 1,
        forall|k: int| 0 <= k < pre.len() - 1 ==> post[k] == pre[k],
    ensures
        ws_contains(post, a, b) || (pre[pre.len() - 1].0 as int == a && pre[pre.len() - 1].1
            as int == b),
{
    let k = choose|k: int|
        0 <= k < pre.len() && (#[trigger] pre[k]).0 as int == a && pre[k].1 as int == b;
    if k < pre.len() - 1 {
        assert(post[k] == pre[k]);
    }
}

/// The core of poke: pops cells off the worklist, reveals hidden ones, floods
/// from zero-valued ones by pushing their neighbors, and handles a detonation
/// with the disclosure pass. Terminates because a cell is only pushed when a
/// neighbor left the in-play set.
#[verifier::rlimit(100)]
fn run_poke_worklist(board: &mut Board, worklist: Vec<(usize, usize)>, changes: &mut Vec<
    BoardChange,
>)
    requires
        old(board).wf(),
        !old(board).spec_empty(),
        forall|k: int|
            0 <= k < worklist@.len() ==> ((#[trigger] worklist@[k]).0 as int) < old(
                board,
            ).spec_width() as int && (worklist@[k].1 as int) < old(board).spec_height() as int,
    ensures
        final(board).wf(),
        !final(board).spec_empty(),
        final(board).spec_width() == old(board).spec_width(),
        final(board).spec_height() == old(board).spec_height(),
        final(board).spec_mines() == old(board).spec_mines(),
        forall|y: int, x: int|
            0 <= y < old(board).grid().len() && 0 <= x < old(board).grid()[y].len() ==> (
            #[trigger] final(board).grid()[y][x]).value == old(board).grid()[y][x].value,
        forall|y: int, x: int|
            0 <= y < old(board).grid().len() && 0 <= x < old(board).grid()[y].len() && (
            #[trigger] final(board).grid()[y][x]).state == CellState::Hidden ==> old(
                board,
            ).grid()[y][x].state == CellState::Hidden,
        old(board).spec_game_state() != GameState::GameOver && final(board).spec_game_state()
            != GameState::GameOver ==> final(board).spec_game_state() == old(board).spec_game_state(),
        forall|k: int|
            0 <= k < worklist@.len() ==> final(board).grid()[(#[trigger] worklist@[k]).1
                as int][worklist@[k].0 as int].state != CellState::Hidden,
        forall|x2: int, y2: int|
            #[trigger] revealed_zero(old(board).grid(), final(board).grid(), x2, y2) ==> forall|
                a: int,
                b: int,
            |
                adjacent(a, b, x2, y2) && 0 <= b < old(board).grid().len() && 0 <= a < old(board).grid()[b].len() ==> (#[trigger] final(board).grid()[b][a]).state
                    != CellState::Hidden,
        forall|y: int, x: int|
            0 <= y < old(board).grid().len() && 0 <= x < old(board).grid()[y].len() && settled(
                (#[trigger] old(board).grid()[y][x]).state,
            ) ==> final(board).grid()[y][x] == old(board).grid()[y][x],
        changes_recorded(old(board).grid(), final(board).grid(), old(changes)@, final(changes)@),
        forall|y: int, x: int|
            0 <= y < old(board).grid().len() && 0 <= x < old(board).grid()[y].len() && (
            #[trigger] final(board).grid()[y][x]) != old(board).grid()[y][x] ==> settled(
                final(board).grid()[y][x].state,
            ),
        old(board).spec_game_state() != GameState::GameOver && final(board).spec_game_state()
            != GameState::GameOver ==> only_reveals(old(board).grid(), final(board).grid()),
        old(board).spec_game_state() != GameState::GameOver && final(board).spec_game_state()
            != GameState::GameOver ==> forall|j: int, i: int|
            0 <= j < old(board).grid().len() && 0 <= i < old(board).grid()[j].len() && (
            #[trigger] final(board).grid()[j][i]) != old(board).grid()[j][i] ==> (ws_contains(
                worklist@,
                i,
                j,
            ) || borders_revealed_zero(old(board).grid(), final(board).grid(), i, j)),
{
    let ghost g0 = old(board).grid();
    let ghost p0 = old(board).spec_game_state();
    let ghost c0 = old(changes)@;
    let w: usize = board.get_width();
    let h: usize = board.get_height();
    let mut work = worklist;
    proof {
        lemma_count_grid_nonneg(board.grid(), hiddenish_p());
    }
    while work.len() > 0
        invariant
            board.wf(),
            !board.spec_empty(),
            board.spec_width() == old(board).spec_width(),
            board.spec_height() == old(board).spec_height(),
            board.spec_mines() == old(board).spec_mines(),
            w == board.spec_width() && h == board.spec_height(),
            grid_same_dims(g0, board.grid()),
            g0.len() == h as int,
            forall|y: int| 0 <= y < g0.len() ==> (#[trigger] g0[y]).len() == w as int,
            forall|y: int, x: int|
                0 <= y < g0.len() && 0 <= x < g0[y].len() ==> (
                #[trigger] board.grid()[y][x]).value == g0[y][x].value,
            forall|y: int, x: int|
                0 <= y < g0.len() && 0 <= x < g0[y].len() && (
                #[trigger] board.grid()[y][x]).state == CellState::Hidden ==> g0[y][x].state
                    == CellState::Hidden,
            p0 != GameState::GameOver && board.spec_game_state() != GameState::GameOver
                ==> board.spec_game_state() == p0,
            forall|k: int|
                0 <= k < work@.len() ==> ((#[trigger] work@[k]).0 as int) < w as int && (
                work@[k].1 as int) < h as int,
            forall|k: int|
                0 <= k < worklist@.len() ==> ((#[trigger] worklist@[k]).0 as int) < w as int && (
                worklist@[k].1 as int) < h as int,
            forall|k: int|
                0 <= k < worklist@.len() ==> (board.grid()[(#[trigger] worklist@[k]).1
                    as int][worklist@[k].0 as int].state != CellState::Hidden || ws_contains(
                    work@,
                    worklist@[k].0 as int,
                    worklist@[k].1 as int,
                )),
            forall|x2: int, y2: int|
                #[trigger] revealed_zero(g0, board.grid(), x2, y2) ==> forall|a: int, b: int|
                    adjacent(a, b, x2, y2) && 0 <= b < g0.len() && 0 <= a < g0[b].len() ==> (
                    #[trigger] board.grid()[b][a]).state != CellState::Hidden || ws_contains(
                        work@,
                        a,
                        b,
                    ),
            forall|y: int, x: int|
                0 <= y < g0.len() && 0 <= x < g0[y].len() && settled(
                    (#[trigger] g0[y][x]).state,
                ) ==> board.grid()[y][x] == g0[y][x],
            changes_recorded(g0, board.grid(), c0, changes@),
            forall|y: int, x: int|
                0 <= y < g0.len() && 0 <= x < g0[y].len() && (#[trigger] board.grid()[y][x])
                    != g0[y][x] ==> settled(board.grid()[y][x].state),
            p0 != GameState::GameOver && board.spec_game_state() != GameState::GameOver
                ==> only_reveals(g0, board.grid()),
            p0 != GameState::GameOver && board.spec_game_state() != GameState::GameOver
                ==> forall|j: int, i: int|
                0 <= j < g0.len() && 0 <= i < g0[j].len() && (#[trigger] board.grid()[j][i])
                    != g0[j][i] ==> (ws_contains(worklist@, i, j) || borders_revealed_zero(
                    g0,
                    board.grid(),
                    i,
                    j,
                )),
            p0 != GameState::GameOver && board.spec_game_state() != GameState::GameOver
                ==> forall|k: int|
                0 <= k < work@.len() ==> (ws_contains(
                    worklist@,
                    (#[trigger] work@[k]).0 as int,
                    work@[k].1 as int,
                ) || borders_revealed_zero(
                    g0,
                    board.grid(),
                    work@[k].0 as int,
                    work@[k].1 as int,
                )),
            0 <= hiddenish_count(board.grid()),
        decreases work@.len() + 9 * hiddenish_count(board.grid()),
    {
        let ghost work_pre = work@;
        let ghost ghead = board.grid();
        let ghost chead = changes@;
        let popped: (usize, usize) = work.pop().unwrap();
        let cx: usize = popped.0;
        let cy: usize = popped.1;
        proof {
            assert(work_pre[work_pre.len() - 1] == popped);
        }
        match board.get_state(cx, cy) {
            Ok(CellState::Hidden) => {
                match board.get_value(cx, cy) {
                    Ok(v) => {
                        let ghost gb = board.grid();
                        if v == MINE_VALUE {
                            // A mine: disclose everything and end the game.
                            add_state_change(
                                cx,
                                cy,
                                CellState::ShowMineExploded,
                                changes,
                                board,
                            );
                            board.set_game_state(GameState::GameOver);
                            proof {
                                lemma_count_grid_update_cell(
                                    gb,
                                    hiddenish_p(),
                                    cx as int,
                                    cy as int,
                                    CellDetails {
                                        state: CellState::ShowMineExploded,
                                        value: gb[cy as int][cx as int].value,
                                    },
                                );
                            }
                            let ghost gm = board.grid();
                            let ghost cm = changes@;
                            show_all_mines(board, changes);
                            proof {
                                lemma_count_grid_nonneg(board.grid(), hiddenish_p());
                                let gcur = board.grid();
                                assert forall|j: int, i: int|
                                    0 <= j < g0.len() && 0 <= i < g0[j].len() && (
                                    #[trigger] gcur[j][i]).state == CellState::Hidden implies
                                    ghead[j][i].state == CellState::Hidden by {
                                    assert(gcur[j][i] == disclosed_cell(gm[j][i]));
                                    assert(gm[j][i].state == CellState::Hidden);
                                    assert(!(j == cy as int && i == cx as int));
                                }
                                assert forall|j: int, i: int|
                                    0 <= j < g0.len() && 0 <= i < g0[j].len() && settled(
                                        (#[trigger] g0[j][i]).state,
                                    ) implies gcur[j][i] == g0[j][i] by {
                                    assert(ghead[j][i] == g0[j][i]);
                                    assert(!(j == cy as int && i == cx as int));
                                    assert(gm[j][i] == ghead[j][i]);
                                    assert(gcur[j][i] == disclosed_cell(gm[j][i]));
                                }
                                assert forall|k: int|
                                    0 <= k < worklist@.len() && gcur[(#[trigger] worklist@[k]).1
                                        as int][worklist@[k].0 as int].state
                                        == CellState::Hidden implies ws_contains(
                                    work@,
                                    worklist@[k].0 as int,
                                    worklist@[k].1 as int,
                                ) by {
                                    let a = worklist@[k].0 as int;
                                    let b = worklist@[k].1 as int;
                                    assert(ghead[b][a].state == CellState::Hidden);
                                    assert(ws_contains(work_pre, a, b));
                                    lemma_ws_pop(work_pre, work@, a, b);
                                    if !ws_contains(work@, a, b) {
                                        assert(a == cx as int && b == cy as int);
                                        assert(gcur[b][a] == disclosed_cell(gm[b][a]));
                                        assert(gcur[b][a].state != CellState::Hidden);
                                    }
                                }
                                assert forall|x2: int, y2: int|
                                    #[trigger] revealed_zero(g0, gcur, x2, y2) implies forall|
                                    a: int,
                                    b: int,
                                |
                                    adjacent(a, b, x2, y2) && 0 <= b < g0.len() && 0 <= a
                                        < g0[b].len() ==> (#[trigger] gcur[b][a]).state
                                        != CellState::Hidden || ws_contains(work@, a, b) by {
                                    assert(gcur[y2][x2] == disclosed_cell(gm[y2][x2]));
                                    assert(gm[y2][x2].state == CellState::ShowValue);
                                    assert(!(x2 == cx as int && y2 == cy as int));
                                    assert(revealed_zero(g0, ghead, x2, y2));
                                    assert forall|a: int, b: int|
                                        adjacent(a, b, x2, y2) && 0 <= b < g0.len() && 0 <= a
                                            < g0[b].len() && (#[trigger] gcur[b][a]).state
                                            == CellState::Hidden implies ws_contains(
                                        work@,
                                        a,
                                        b,
                                    ) by {
                                        assert(gcur[b][a] == disclosed_cell(gm[b][a]));
                                        assert(ghead[b][a].state == CellState::Hidden);
                                        assert(ws_contains(work_pre, a, b));
                                        lemma_ws_pop(work_pre, work@, a, b);
                                        if !ws_contains(work@, a, b) {
                                            assert(a == cx as int && b == cy as int);
                                            assert(gcur[b][a].state != CellState::Hidden);
                                        }
                                    }
                                }
                                // recording: the explosion's record, then the
                                // disclosure's records behind it
                                lemma_changes_recorded_one(
                                    ghead,
                                    gm,
                                    chead,
                                    cx,
                                    cy,
                                    CellState::ShowMineExploded,
                                );
                                assert forall|j: int, i: int|
                                    0 <= j < ghead.len() && 0 <= i < ghead[j].len() && (
                                    #[trigger] gm[j][i]).state != ghead[j][i].state implies
                                    gcur[j][i] == gm[j][i] by {
                                    assert(j == cy as int && i == cx as int);
                                    assert(gcur[j][i] == disclosed_cell(gm[j][i]));
                                }
                                lemma_changes_recorded_trans(ghead, gm, gcur, chead, cm, changes@);
                                assert forall|j: int, i: int|
                                    0 <= j < g0.len() && 0 <= i < g0[j].len() && (
                                    #[trigger] ghead[j][i]).state != g0[j][i].state implies
                                    gcur[j][i] == ghead[j][i] by {
                                    assert(settled(ghead[j][i].state));
                                    assert(!(j == cy as int && i == cx as int));
                                    assert(gm[j][i] == ghead[j][i]);
                                    assert(gcur[j][i] == disclosed_cell(gm[j][i]));
                                }
                                lemma_changes_recorded_trans(g0, ghead, gcur, c0, chead, changes@);
                                // every changed cell is permanently revealed
                                assert forall|j: int, i: int|
                                    0 <= j < g0.len() && 0 <= i < g0[j].len() && (
                                    #[trigger] gcur[j][i]) != g0[j][i] implies settled(
                                    gcur[j][i].state,
                                ) by {
                                    if gcur[j][i] != gm[j][i] {
                                        assert(gcur[j][i] == disclosed_cell(gm[j][i]));
                                    } else if gm[j][i] != ghead[j][i] {
                                        assert(j == cy as int && i == cx as int);
                                    } else {
                                        assert(settled(ghead[j][i].state));
                                    }
                                }
                            }
                        } else if v == 0 {
                            add_state_change(cx, cy, CellState::ShowValue, changes, board);
                            proof {
                                lemma_count_grid_update_cell(
                                    gb,
                                    hiddenish_p(),
                                    cx as int,
                                    cy as int,
                                    CellDetails {
                                        state: CellState::ShowValue,
                                        value: gb[cy as int][cx as int].value,
                                    },
                                );
                                lemma_count_grid_nonneg(board.grid(), hiddenish_p());
                                lemma_changes_recorded_one(
                                    ghead,
                                    board.grid(),
                                    chead,
                                    cx,
                                    cy,
                                    CellState::ShowValue,
                                );
                                assert forall|j: int, i: int|
                                    0 <= j < g0.len() && 0 <= i < g0[j].len() && (
                                    #[trigger] ghead[j][i]).state != g0[j][i].state implies
                                    board.grid()[j][i] == ghead[j][i] by {
                                    assert(settled(ghead[j][i].state));
                                    assert(!(j == cy as int && i == cx as int));
                                }
                                lemma_changes_recorded_trans(
                                    g0,
                                    ghead,
                                    board.grid(),
                                    c0,
                                    chead,
                                    changes@,
                                );
                                assert(ghead[cy as int][cx as int] == g0[cy as int][cx as int]);
                                assert forall|j: int, i: int|
                                    0 <= j < g0.len() && 0 <= i < g0[j].len() && (
                                    #[trigger] board.grid()[j][i]) != g0[j][i] implies settled(
                                    board.grid()[j][i].state,
                                ) by {
                                    if !(j == cy as int && i == cx as int) {
                                        assert(board.grid()[j][i] == ghead[j][i]);
                                    }
                                }
                                if p0 != GameState::GameOver && board.spec_game_state()
                                    != GameState::GameOver {
                                    assert forall|j: int, i: int|
                                        0 <= j < g0.len() && 0 <= i < g0[j].len() implies ((
                                    #[trigger] board.grid()[j][i]) == g0[j][i] || (
                                    g0[j][i].state == CellState::Hidden && g0[j][i].value
                                        != MINE_VALUE && board.grid()[j][i] == (CellDetails {
                                        state: CellState::ShowValue,
                                        value: g0[j][i].value,
                                    }))) by {
                                        if !(j == cy as int && i == cx as int) {
                                            assert(board.grid()[j][i] == ghead[j][i]);
                                        }
                                    }
                                }
                            }
                            // flood: poke the whole 8-neighborhood, clipped at the edges
                            let mut nbrs = neighbor_worklist(cx, cy, w, h);
                            let ghost ns = nbrs@;
                            work.append(&mut nbrs);
                            proof {
                                let gcur = board.grid();
                                if p0 != GameState::GameOver && board.spec_game_state()
                                    != GameState::GameOver {
                                    assert(revealed_zero(g0, gcur, cx as int, cy as int));
                                    assert(work_pre[work_pre.len() - 1] == popped);
                                    assert forall|j: int, i: int|
                                        0 <= j < g0.len() && 0 <= i < g0[j].len() && (
                                    #[trigger] gcur[j][i]) != g0[j][i] implies (ws_contains(
                                        worklist@,
                                        i,
                                        j,
                                    ) || borders_revealed_zero(g0, gcur, i, j)) by {
                                        if j == cy as int && i == cx as int {
                                            if !ws_contains(worklist@, i, j) {
                                                assert(borders_revealed_zero(g0, ghead, i, j));
                                                lemma_borders_rz_monotone(g0, ghead, gcur, i, j);
                                            }
                                        } else {
                                            assert(ghead[j][i] != g0[j][i]);
                                            if !ws_contains(worklist@, i, j) {
                                                assert(borders_revealed_zero(g0, ghead, i, j));
                                                lemma_borders_rz_monotone(g0, ghead, gcur, i, j);
                                            }
                                        }
                                    }
                                    assert forall|k: int| 0 <= k < work@.len() implies (
                                    ws_contains(
                                        worklist@,
                                        (#[trigger] work@[k]).0 as int,
                                        work@[k].1 as int,
                                    ) || borders_revealed_zero(
                                        g0,
                                        gcur,
                                        work@[k].0 as int,
                                        work@[k].1 as int,
                                    )) by {
                                        if k < work_pre.len() - 1 {
                                            assert(work@[k] == work_pre[k]);
                                            if !ws_contains(
                                                worklist@,
                                                work@[k].0 as int,
                                                work@[k].1 as int,
                                            ) {
                                                assert(borders_revealed_zero(
                                                    g0,
                                                    ghead,
                                                    work@[k].0 as int,
                                                    work@[k].1 as int,
                                                ));
                                                lemma_borders_rz_monotone(
                                                    g0,
                                                    ghead,
                                                    gcur,
                                                    work@[k].0 as int,
                                                    work@[k].1 as int,
                                                );
                                            }
                                        } else {
                                            assert(work@[k] == ns[k - (work_pre.len() - 1)]);
                                            assert(adjacent(
                                                work@[k].0 as int,
                                                work@[k].1 as int,
                                                cx as int,
                                                cy as int,
                                            ));
                                        }
                                    }
                                }
                                assert forall|k: int|
                                    0 <= k < worklist@.len() && gcur[(#[trigger] worklist@[k]).1
                                        as int][worklist@[k].0 as int].state
                                        == CellState::Hidden implies ws_contains(
                                    work@,
                                    worklist@[k].0 as int,
                                    worklist@[k].1 as int,
                                ) by {
                                    let a = worklist@[k].0 as int;
                                    let b = worklist@[k].1 as int;
                                    assert(ghead[b][a].state == CellState::Hidden);
                                    assert(ws_contains(work_pre, a, b));
                                    lemma_ws_pop(work_pre, work@, a, b);
                                    if !ws_contains(work@, a, b) {
                                        assert(a == cx as int && b == cy as int);
                                        assert(gcur[b][a].state == CellState::ShowValue);
                                    }
                                }
                                assert forall|x2: int, y2: int|
                                    #[trigger] revealed_zero(g0, gcur, x2, y2) implies forall|
                                    a: int,
                                    b: int,
                                |
                                    adjacent(a, b, x2, y2) && 0 <= b < g0.len() && 0 <= a
                                        < g0[b].len() ==> (#[trigger] gcur[b][a]).state
                                        != CellState::Hidden || ws_contains(work@, a, b) by {
                                    if x2 == cx as int && y2 == cy as int {
                                        assert forall|a: int, b: int|
                                            adjacent(a, b, x2, y2) && 0 <= b < g0.len() && 0 <= a
                                                < g0[b].len() && (#[trigger] gcur[b][a]).state
                                                == CellState::Hidden implies ws_contains(
                                            work@,
                                            a,
                                            b,
                                        ) by {
                                            assert(ws_contains(ns, a, b));
                                            let k2 = choose|k2: int|
                                                0 <= k2 < ns.len() && (#[trigger] ns[k2]).0
                                                    as int == a && ns[k2].1 as int == b;
                                            assert(work@[work_pre.len() - 1 + k2] == ns[k2]);
                                        }
                                    } else {
                                        assert(revealed_zero(g0, ghead, x2, y2));
                                        assert forall|a: int, b: int|
                                            adjacent(a, b, x2, y2) && 0 <= b < g0.len() && 0 <= a
                                                < g0[b].len() && (#[trigger] gcur[b][a]).state
                                                == CellState::Hidden implies ws_contains(
                                            work@,
                                            a,
                                            b,
                                        ) by {
                                            assert(ghead[b][a].state == CellState::Hidden);
                                            assert(ws_contains(work_pre, a, b));
                                            lemma_ws_pop(work_pre, work@, a, b);
                                            if !ws_contains(work@, a, b) {
                                                assert(a == cx as int && b == cy as int);
                                                assert(gcur[b][a].state
                                                    == CellState::ShowValue);
                                            }
                                        }
                                    }
                                }
                            }
                        } else {
                            add_state_change(cx, cy, CellState::ShowValue, changes, board);
                            proof {
                                lemma_count_grid_update_cell(
                                    gb,
                                    hiddenish_p(),
                                    cx as int,
                                    cy as int,
                                    CellDetails {
                                        state: CellState::ShowValue,
                                        value: gb[cy as int][cx as int].value,
                                    },
                                );
                                lemma_count_grid_nonneg(board.grid(), hiddenish_p());
                                let gcur = board.grid();
                                lemma_changes_recorded_one(
                                    ghead,
                                    gcur,
                                    chead,
                                    cx,
                                    cy,
                                    CellState::ShowValue,
                                );
                                assert forall|j: int, i: int|
                                    0 <= j < g0.len() && 0 <= i < g0[j].len() && (
                                    #[trigger] ghead[j][i]).state != g0[j][i].state implies
                                    gcur[j][i] == ghead[j][i] by {
                                    assert(settled(ghead[j][i].state));
                                    assert(!(j == cy as int && i == cx as int));
                                }
                                lemma_changes_recorded_trans(g0, ghead, gcur, c0, chead, changes@);
                                assert(ghead[cy as int][cx as int] == g0[cy as int][cx as int]);
                                assert forall|j: int, i: int|
                                    0 <= j < g0.len() && 0 <= i < g0[j].len() && (
                                    #[trigger] gcur[j][i]) != g0[j][i] implies settled(
                                    gcur[j][i].state,
                                ) by {
                                    if !(j == cy as int && i == cx as int) {
                                        assert(gcur[j][i] == ghead[j][i]);
                                    }
                                }
                                if p0 != GameState::GameOver && board.spec_game_state()
                                    != GameState::GameOver {
                                    assert forall|j: int, i: int|
                                        0 <= j < g0.len() && 0 <= i < g0[j].len() implies ((
                                    #[trigger] gcur[j][i]) == g0[j][i] || (g0[j][i].state
                                        == CellState::Hidden && g0[j][i].value != MINE_VALUE
                                        && gcur[j][i] == (CellDetails {
                                        state: CellState::ShowValue,
                                        value: g0[j][i].value,
                                    }))) by {
                                        if !(j == cy as int && i == cx as int) {
                                            assert(gcur[j][i] == ghead[j][i]);
                                        }
                                    }
                                }
                                if p0 != GameState::GameOver && board.spec_game_state()
                                    != GameState::GameOver {
                                    assert(work_pre[work_pre.len() - 1] == popped);
                                    assert forall|j: int, i: int|
                                        0 <= j < g0.len() && 0 <= i < g0[j].len() && (
                                    #[trigger] gcur[j][i]) != g0[j][i] implies (ws_contains(
                                        worklist@,
                                        i,
                                        j,
                                    ) || borders_revealed_zero(g0, gcur, i, j)) by {
                                        if !(j == cy as int && i == cx as int) {
                                            assert(ghead[j][i] != g0[j][i]);
                                        }
                                        if !ws_contains(worklist@, i, j) {
                                            assert(borders_revealed_zero(g0, ghead, i, j));
                                            lemma_borders_rz_monotone(g0, ghead, gcur, i, j);
                                        }
                                    }
                                    assert forall|k: int| 0 <= k < work@.len() implies (
                                    ws_contains(
                                        worklist@,
                                        (#[trigger] work@[k]).0 as int,
                                        work@[k].1 as int,
                                    ) || borders_revealed_zero(
                                        g0,
                                        gcur,
                                        work@[k].0 as int,
                                        work@[k].1 as int,
                                    )) by {
                                        assert(work@[k] == work_pre[k]);
                                        if !ws_contains(
                                            worklist@,
                                            work@[k].0 as int,
                                            work@[k].1 as int,
                                        ) {
                                            assert(borders_revealed_zero(
                                                g0,
                                                ghead,
                                                work@[k].0 as int,
                                                work@[k].1 as int,
                                            ));
                                            lemma_borders_rz_monotone(
                                                g0,
                                                ghead,
                                                gcur,
                                                work@[k].0 as int,
                                                work@[k].1 as int,
                                            );
                                        }
                                    }
                                }
                                assert forall|k: int|
                                    0 <= k < worklist@.len() && gcur[(#[trigger] worklist@[k]).1
                                        as int][worklist@[k].0 as int].state
                                        == CellState::Hidden implies ws_contains(
                                    work@,
                                    worklist@[k].0 as int,
                                    worklist@[k].1 as int,
                                ) by {
                                    let a = worklist@[k].0 as int;
                                    let b = worklist@[k].1 as int;
                                    assert(ghead[b][a].state == CellState::Hidden);
                                    assert(ws_contains(work_pre, a, b));
                                    lemma_ws_pop(work_pre, work@, a, b);
                                    if !ws_contains(work@, a, b) {
                                        assert(a == cx as int && b == cy as int);
                                        assert(gcur[b][a].state == CellState::ShowValue);
                                    }
                                }
                                assert forall|x2: int, y2: int|
                                    #[trigger] revealed_zero(g0, gcur, x2, y2) implies forall|
                                    a: int,
                                    b: int,
                                |
                                    adjacent(a, b, x2, y2) && 0 <= b < g0.len() && 0 <= a
                                        < g0[b].len() ==> (#[trigger] gcur[b][a]).state
                                        != CellState::Hidden || ws_contains(work@, a, b) by {
                                    assert(g0[cy as int][cx as int].value != 0);
                                    assert(!(x2 == cx as int && y2 == cy as int));
                                    assert(revealed_zero(g0, ghead, x2, y2));
                                    assert forall|a: int, b: int|
                                        adjacent(a, b, x2, y2) && 0 <= b < g0.len() && 0 <= a
                                            < g0[b].len() && (#[trigger] gcur[b][a]).state
                                            == CellState::Hidden implies ws_contains(
                                        work@,
                                        a,
                                        b,
                                    ) by {
                                        assert(ghead[b][a].state == CellState::Hidden);
                                        assert(ws_contains(work_pre, a, b));
                                        lemma_ws_pop(work_pre, work@, a, b);
                                        if !ws_contains(work@, a, b) {
                                            assert(a == cx as int && b == cy as int);
                                            assert(gcur[b][a].state == CellState::ShowValue);
                                        }
                                    }
                                }
                            }
                        }
                    },
                    Err(_) => {},
                }
            },
            Ok(_) => {
                proof {
                    let gcur = board.grid();
                    if p0 != GameState::GameOver && board.spec_game_state()
                        != GameState::GameOver {
                        assert forall|k: int| 0 <= k < work@.len() implies (ws_contains(
                            worklist@,
                            (#[trigger] work@[k]).0 as int,
                            work@[k].1 as int,
                        ) || borders_revealed_zero(
                            g0,
                            gcur,
                            work@[k].0 as int,
                            work@[k].1 as int,
                        )) by {
                            assert(work@[k] == work_pre[k]);
                        }
                    }
                    assert forall|k: int|
                        0 <= k < worklist@.len() && gcur[(#[trigger] worklist@[k]).1
                            as int][worklist@[k].0 as int].state == CellState::Hidden implies
                        ws_contains(work@, worklist@[k].0 as int, worklist@[k].1 as int) by {
                        let a = worklist@[k].0 as int;
                        let b = worklist@[k].1 as int;
                        assert(ws_contains(work_pre, a, b));
                        lemma_ws_pop(work_pre, work@, a, b);
                        if !ws_contains(work@, a, b) {
                            assert(a == cx as int && b == cy as int);
                            assert(gcur[b][a].state != CellState::Hidden);
                        }
                    }
                    assert forall|x2: int, y2: int|
                        #[trigger] revealed_zero(g0, gcur, x2, y2) implies forall|a: int, b: int|
                            adjacent(a, b, x2, y2) && 0 <= b < g0.len() && 0 <= a < g0[b].len()
                                ==> (#[trigger] gcur[b][a]).state != CellState::Hidden
                                || ws_contains(work@, a, b) by {
                        assert forall|a: int, b: int|
                            adjacent(a, b, x2, y2) && 0 <= b < g0.len() && 0 <= a < g0[b].len()
                                && (#[trigger] gcur[b][a]).state == CellState::Hidden implies
                            ws_contains(work@, a, b) by {
                            assert(ws_contains(work_pre, a, b));
                            lemma_ws_pop(work_pre, work@, a, b);
                            if !ws_contains(work@, a, b) {
                                assert(a == cx as int && b == cy as int);
                                assert(gcur[b][a].state != CellState::Hidden);
                            }
                        }
                    }
                }
            },
            Err(_) => {},
        }
        proof {
            lemma_count_grid_nonneg(board.grid(), hiddenish_p());
        }
    }
}

/// Builds the worklist of the in-bounds 8-neighborhood of `(cx, cy)`.
#[verifier::rlimit(30)]
fn neighbor_worklist(cx: usize, cy: usize, w: usize, h: usize) -> (r: Vec<(usize, usize)>)
    requires
        (cx as int) < w as int,
        (cy as int) < h as int,
        w as int * h as int <= isize::MAX as int,
    ensures
        r@.len() <= 8,
        forall|k: int|
            0 <= k < r@.len() ==> adjacent(
                (#[trigger] r@[k]).0 as int,
                r@[k].1 as int,
                cx as int,
                cy as int,
            ) && (r@[k].0 as int) < w as int && (r@[k].1 as int) < h as int,
        forall|a: int, b: int|
            adjacent(a, b, cx as int, cy as int) && 0 <= b < h as int && 0 <= a < w as int
                ==> ws_contains(r@, a, b),
{
    proof {
        assert(w as int <= w as int * h as int && h as int <= w as int * h as int)
            by (nonlinear_arith)
            requires w as int >= 1 && h as int >= 1;
    }
    let mut nbrs: Vec<(usize, usize)> = Vec::new();
    let ghost mut k_nw: int = -1;
    let ghost mut k_n: int = -1;
    let ghost mut k_ne: int = -1;
    let ghost mut k_w: int = -1;
    let ghost mut k_e: int = -1;
    let ghost mut k_sw: int = -1;
    let ghost mut k_s: int = -1;
    let ghost mut k_se: int = -1;
    if cx > 0 && cy > 0 {
        proof {
            k_nw = nbrs@.len() as int;
        }
        nbrs.push((cx - 1, cy - 1));
    }
    if cy > 0 {
        proof {
            k_n = nbrs@.len() as int;
        }
        nbrs.push((cx, cy - 1));
    }
    if cx + 1 < w && cy > 0 {
        proof {
            k_ne = nbrs@.len() as int;
        }
        nbrs.push((cx + 1, cy - 1));
    }
    if cx > 0 {
        proof {
            k_w = nbrs@.len() as int;
        }
        nbrs.push((cx - 1, cy));
    }
    if cx + 1 < w {
        proof {
            k_e = nbrs@.len() as int;
        }
        nbrs.push((cx + 1, cy));
    }
    if cx > 0 && cy + 1 < h {
        proof {
            k_sw = nbrs@.len() as int;
        }
        nbrs.push((cx - 1, cy + 1));
    }
    if cy + 1 < h {
        proof {
            k_s = nbrs@.len() as int;
        }
        nbrs.push((cx, cy + 1));
    }
    if cx + 1 < w && cy + 1 < h {
        proof {
            k_se = nbrs@.len() as int;
        }
        nbrs.push((cx + 1, cy + 1));
    }
    proof {
        let ns = nbrs@;
        assert forall|a: int, b: int|
            adjacent(a, b, cx as int, cy as int) && 0 <= b < h as int && 0 <= a < w as int
                implies ws_contains(ns, a, b) by {
            if b == cy as int - 1 {
                if a == cx as int - 1 {
                    assert(0 <= k_nw < ns.len() && ns[k_nw].0 as int == a && ns[k_nw].1 as int
                        == b);
                } else if a == cx as int {
                    assert(0 <= k_n < ns.len() && ns[k_n].0 as int == a && ns[k_n].1 as int == b);
                } else {
                    assert(0 <= k_ne < ns.len() && ns[k_ne].0 as int == a && ns[k_ne].1 as int
                        == b);
                }
            } else if b == cy as int {
                if a == cx as int - 1 {
                    assert(0 <= k_w < ns.len() && ns[k_w].0 as int == a && ns[k_w].1 as int == b);
                } else {
                    assert(0 <= k_e < ns.len() && ns[k_e].0 as int == a && ns[k_e].1 as int == b);
                }
            } else {
                if a == cx as int - 1 {
                    assert(0 <= k_sw < ns.len() && ns[k_sw].0 as int == a && ns[k_sw].1 as int
                        == b);
                } else if a == cx as int {
                    assert(0 <= k_s < ns.len() && ns[k_s].0 as int == a && ns[k_s].1 as int == b);
                } else {
                    assert(0 <= k_se < ns.len() && ns[k_se].0 as int == a && ns[k_se].1 as int
                        == b);
                }
            }
        }
    }
    nbrs
}


/// Reveals a hidden cell: a mine detonates and ends the game with full
/// disclosure; a zero cell floods its neighborhood; a numbered cell is shown.
pub fn poke_hidden_cell(x: usize, y: usize, board: &mut Board, changes: &mut Vec<BoardChange>)
    requires
        old(board).wf(),
        !old(board).spec_empty(),
        old(board).in_bounds(x as int, y as int),
        old(board).grid()[y as int][x as int].state == CellState::Hidden,
    ensures
        final(board).wf(),
        !final(board).spec_empty(),
        final(board).spec_width() == old(board).spec_width(),
        final(board).spec_height() == old(board).spec_height(),
        final(board).spec_mines() == old(board).spec_mines(),
        forall|j: int, i: int|
            0 <= j < old(board).grid().len() && 0 <= i < old(board).grid()[j].len() ==> (
            #[trigger] final(board).grid()[j][i]).value == old(board).grid()[j][i].value,
        old(changes)@.len() <= final(changes)@.len(),
        forall|i: int| 0 <= i < old(changes)@.len() ==> final(changes)@[i] == old(changes)@[i],
        // detonating a mine: the poked cell explodes, the game is lost, and
        // every mine and wrong flag is put on the table
        old(board).grid()[y as int][x as int].value == MINE_VALUE ==> final(board).spec_game_state() == GameState::GameOver && (forall|j: int, i: int|
            0 <= j < old(board).grid().len() && 0 <= i < old(board).grid()[j].len()
                ==> #[trigger] final(board).grid()[j][i] == (if j == y as int && i == x as int {
                CellDetails {
                    state: CellState::ShowMineExploded,
                    value: old(board).grid()[j][i].value,
                }
            } else {
                disclosed_cell(old(board).grid()[j][i])
            })),
        // a numbered cell is revealed alone
        old(board).grid()[y as int][x as int].value != MINE_VALUE && old(board).grid()[y as int][x
            as int].value != 0 ==> final(board).spec_game_state() == old(board).spec_game_state()
            && final(board).grid() == old(board).grid().update(
            y as int,
            old(board).grid()[y as int].update(
                x as int,
                CellDetails {
                    state: CellState::ShowValue,
                    value: old(board).grid()[y as int][x as int].value,
                },
            ),
        ) && final(board).spec_hidden_count() == old(board).spec_hidden_count() - 1 && final(board).spec_flag_count() == old(board).spec_flag_count() && final(changes)@ == old(
            changes,
        )@.push(BoardChange { x, y, state: Some(CellState::ShowValue) }),
        // a zero cell is revealed and the flood leaves it no hidden neighbor
        old(board).grid()[y as int][x as int].value == 0 ==> final(board).grid()[y as int][x
            as int].state == CellState::ShowValue && (forall|a: int, b: int|
            adjacent(a, b, x as int, y as int) && 0 <= b < old(board).grid().len() && 0 <= a
                < old(board).grid()[b].len() ==> (#[trigger] final(board).grid()[b][a]).state
                != CellState::Hidden),
        // every transition is recorded once in the diff
        changes_recorded(old(board).grid(), final(board).grid(), old(changes)@, final(changes)@),
        // every changed cell ends up permanently revealed
        forall|j: int, i: int|
            0 <= j < old(board).grid().len() && 0 <= i < old(board).grid()[j].len() && (
            #[trigger] final(board).grid()[j][i]) != old(board).grid()[j][i] ==> settled(
                final(board).grid()[j][i].state,
            ),
        // short of a detonation, the poke only reveals hidden non-mine cells:
        // flagged and questioned cells are untouched and no mine is shown
        old(board).spec_game_state() != GameState::GameOver && final(board).spec_game_state()
            != GameState::GameOver ==> only_reveals(old(board).grid(), final(board).grid()),
        // and the reveals are confined: every changed cell is the poked cell
        // or borders a zero cell this poke revealed
        old(board).spec_game_state() != GameState::GameOver && final(board).spec_game_state()
            != GameState::GameOver ==> forall|j: int, i: int|
            0 <= j < old(board).grid().len() && 0 <= i < old(board).grid()[j].len() && (
            #[trigger] final(board).grid()[j][i]) != old(board).grid()[j][i] ==> ((j == y as int
                && i == x as int) || borders_revealed_zero(
                old(board).grid(),
                final(board).grid(),
                i,
                j,
            )),
        // cells already permanently revealed are never touched
        forall|j: int, i: int|
            0 <= j < old(board).grid().len() && 0 <= i < old(board).grid()[j].len() && settled(
                (#[trigger] old(board).grid()[j][i]).state,
            ) ==> final(board).grid()[j][i] == old(board).grid()[j][i],
        // flood-fill closure: every cell this operation revealed as a zero
        // cell has no hidden neighbor left
        forall|x2: int, y2: int|
            #[trigger] revealed_zero(old(board).grid(), final(board).grid(), x2, y2) ==> forall|
                a: int,
                b: int,
            |
                adjacent(a, b, x2, y2) && 0 <= b < old(board).grid().len() && 0 <= a < old(board).grid()[b].len() ==> (#[trigger] final(board).grid()[b][a]).state
                    != CellState::Hidden,
        // a flood never hides a cell, and ends the game only on a mine
        forall|j: int, i: int|
            0 <= j < old(board).grid().len() && 0 <= i < old(board).grid()[j].len() && (
            #[trigger] final(board).grid()[j][i]).state == CellState::Hidden ==> old(board).grid()[j][i].state == CellState::Hidden,
        old(board).spec_game_state() != GameState::GameOver && final(board).spec_game_state()
            != GameState::GameOver ==> final(board).spec_game_state() == old(board).spec_game_state(),
{
    match board.get_value(x, y) {
        Ok(v) => {
            if v == MINE_VALUE {
                let ghost gb = old(board).grid();
                let ghost cb = old(changes)@;
                add_state_change(x, y, CellState::ShowMineExploded, changes, board);
                board.set_game_state(GameState::GameOver);
                let ghost gm = board.grid();
                let ghost cm = changes@;
                show_all_mines(board, changes);
                proof {
                    assert forall|j: int, i: int|
                        0 <= j < gb.len() && 0 <= i < gb[j].len() implies #[trigger] board.grid()[j][i] == (if j == y as int && i == x as int {
                        CellDetails {
                            state: CellState::ShowMineExploded,
                            value: gb[j][i].value,
                        }
                    } else {
                        disclosed_cell(gb[j][i])
                    }) by {
                        assert(board.grid()[j][i] == disclosed_cell(gm[j][i]));
                        if !(j == y as int && i == x as int) {
                            assert(gm[j][i] == gb[j][i]);
                        }
                    }
                    assert forall|x2: int, y2: int|
                        #[trigger] revealed_zero(gb, board.grid(), x2, y2) implies false by {
                        assert(board.grid()[y2][x2] == disclosed_cell(gm[y2][x2]));
                        if x2 == x as int && y2 == y as int {
                            assert(board.grid()[y2][x2].state == CellState::ShowMineExploded);
                        } else {
                            assert(gm[y2][x2] == gb[y2][x2]);
                            assert(gb[y2][x2].state == CellState::Hidden && gb[y2][x2].value
                                == 0);
                            assert(board.grid()[y2][x2] == gb[y2][x2]);
                        }
                    }
                    lemma_changes_recorded_one(gb, gm, cb, x, y, CellState::ShowMineExploded);
                    assert forall|j: int, i: int|
                        0 <= j < gb.len() && 0 <= i < gb[j].len() && (#[trigger] gm[j][i]).state
                            != gb[j][i].state implies board.grid()[j][i] == gm[j][i] by {
                        assert(j == y as int && i == x as int);
                        assert(board.grid()[j][i] == disclosed_cell(gm[j][i]));
                    }
                    lemma_changes_recorded_trans(gb, gm, board.grid(), cb, cm, changes@);
                    assert forall|j: int, i: int|
                        0 <= j < gb.len() && 0 <= i < gb[j].len() && (
                        #[trigger] board.grid()[j][i]) != gb[j][i] implies settled(
                        board.grid()[j][i].state,
                    ) by {
                        if !(j == y as int && i == x as int) {
                            assert(board.grid()[j][i] == disclosed_cell(gb[j][i]));
                        }
                    }
                }
            } else if v == 0 {
                let ghost gb = old(board).grid();
                add_state_change(x, y, CellState::ShowValue, changes, board);
                let ghost gz = board.grid();
                let ghost cz = changes@;
                proof {
                    assert(board.wf());
                }
                let nbrs = neighbor_worklist(x, y, board.get_width(), board.get_height());
                let ghost ns = nbrs@;
                run_poke_worklist(board, nbrs, changes);
                proof {
                    assert(settled(gz[y as int][x as int].state));
                    assert(board.grid()[y as int][x as int] == gz[y as int][x as int]);
                    lemma_changes_recorded_one(gb, gz, old(changes)@, x, y, CellState::ShowValue);
                    assert forall|j: int, i: int|
                        0 <= j < gb.len() && 0 <= i < gb[j].len() && (#[trigger] gz[j][i]).state
                            != gb[j][i].state implies board.grid()[j][i] == gz[j][i] by {
                        assert(j == y as int && i == x as int);
                    }
                    lemma_changes_recorded_trans(gb, gz, board.grid(), old(changes)@, cz, changes@);
                    assert forall|j: int, i: int|
                        0 <= j < gb.len() && 0 <= i < gb[j].len() && (
                        #[trigger] board.grid()[j][i]) != gb[j][i] implies settled(
                        board.grid()[j][i].state,
                    ) by {
                        if board.grid()[j][i] == gz[j][i] {
                            assert(j == y as int && i == x as int);
                        }
                    }
                    if old(board).spec_game_state() != GameState::GameOver
                        && board.spec_game_state() != GameState::GameOver {
                        assert forall|j: int, i: int|
                            0 <= j < gb.len() && 0 <= i < gb[j].len() implies ((
                        #[trigger] board.grid()[j][i]) == gb[j][i] || (gb[j][i].state
                            == CellState::Hidden && gb[j][i].value != MINE_VALUE
                            && board.grid()[j][i] == (CellDetails {
                            state: CellState::ShowValue,
                            value: gb[j][i].value,
                        }))) by {
                            if j == y as int && i == x as int {
                                assert(board.grid()[j][i] == gz[j][i]);
                            } else {
                                assert(gz[j][i] == gb[j][i]);
                            }
                        }
                    }
                    if old(board).spec_game_state() != GameState::GameOver
                        && board.spec_game_state() != GameState::GameOver {
                        assert(revealed_zero(gb, board.grid(), x as int, y as int));
                        assert forall|j: int, i: int|
                            0 <= j < gb.len() && 0 <= i < gb[j].len() && (
                        #[trigger] board.grid()[j][i]) != gb[j][i] && !(j == y as int && i == x
                            as int) implies borders_revealed_zero(gb, board.grid(), i, j) by {
                            assert(gz[j][i] == gb[j][i]);
                            if ws_contains(ns, i, j) {
                                let k = choose|k: int|
                                    0 <= k < ns.len() && (#[trigger] ns[k]).0 as int == i
                                        && ns[k].1 as int == j;
                                assert(adjacent(i, j, x as int, y as int));
                            } else {
                                assert(borders_revealed_zero(gz, board.grid(), i, j));
                                let (x2, y2): (int, int) = choose|x2: int, y2: int|
                                    #[trigger] revealed_zero(gz, board.grid(), x2, y2)
                                        && adjacent(i, j, x2, y2);
                                assert(gz[y2][x2] == gb[y2][x2]);
                                assert(revealed_zero(gb, board.grid(), x2, y2));
                            }
                        }
                    }
                    assert forall|a: int, b: int|
                        adjacent(a, b, x as int, y as int) && 0 <= b < gb.len() && 0 <= a
                            < gb[b].len() implies (#[trigger] board.grid()[b][a]).state
                        != CellState::Hidden by {
                        assert(ws_contains(ns, a, b));
                        let k = choose|k: int|
                            0 <= k < ns.len() && (#[trigger] ns[k]).0 as int == a && ns[k].1
                                as int == b;
                        assert(board.grid()[ns[k].1 as int][ns[k].0 as int].state
                            != CellState::Hidden);
                    }
                    assert forall|j: int, i: int|
                        0 <= j < gb.len() && 0 <= i < gb[j].len() && settled(
                            (#[trigger] gb[j][i]).state,
                        ) implies board.grid()[j][i] == gb[j][i] by {
                        assert(!(j == y as int && i == x as int));
                        assert(gz[j][i] == gb[j][i]);
                        assert(settled(gz[j][i].state));
                    }
                    assert forall|x2: int, y2: int|
                        #[trigger] revealed_zero(gb, board.grid(), x2, y2) implies forall|
                        a: int,
                        b: int,
                    |
                        adjacent(a, b, x2, y2) && 0 <= b < gb.len() && 0 <= a < gb[b].len()
                            ==> (#[trigger] board.grid()[b][a]).state != CellState::Hidden by {
                        if !(x2 == x as int && y2 == y as int) {
                            assert(gz[y2][x2] == gb[y2][x2]);
                            assert(revealed_zero(gz, board.grid(), x2, y2));
                        }
                    }
                }
            } else {
                let ghost gb = old(board).grid();
                add_state_change(x, y, CellState::ShowValue, changes, board);
                proof {
                    assert forall|x2: int, y2: int|
                        #[trigger] revealed_zero(gb, board.grid(), x2, y2) implies false by {
                        if x2 == x as int && y2 == y as int {
                            assert(gb[y2][x2].value != 0);
                        } else {
                            assert(board.grid()[y2][x2] == gb[y2][x2]);
                        }
                    }
                    lemma_changes_recorded_one(
                        gb,
                        board.grid(),
                        old(changes)@,
                        x,
                        y,
                        CellState::ShowValue,
                    );
                    assert forall|j: int, i: int|
                        0 <= j < gb.len() && 0 <= i < gb[j].len() && (
                        #[trigger] board.grid()[j][i]) != gb[j][i] implies settled(
                        board.grid()[j][i].state,
                    ) by {
                        assert(j == y as int && i == x as int);
                    }
                    assert forall|j: int, i: int|
                        0 <= j < gb.len() && 0 <= i < gb[j].len() implies ((
                    #[trigger] board.grid()[j][i]) == gb[j][i] || (gb[j][i].state
                        == CellState::Hidden && gb[j][i].value != MINE_VALUE
                        && board.grid()[j][i] == (CellDetails {
                        state: CellState::ShowValue,
                        value: gb[j][i].value,
                    }))) by {}
                }
            }
        },
        Err(_) => {},
    }
}

/// Pokes one cell: a no-op unless the cell is hidden; a hidden mine
/// detonates, a hidden zero cell floods, a hidden numbered cell is shown.
/// Out-of-bounds coordinates and the empty board are tolerated no-ops.
pub fn poke_single_cell(x: usize, y: usize, board: &mut Board, changes: &mut Vec<BoardChange>)
    requires
        old(board).wf(),
    ensures
        final(board).wf(),
        final(board).spec_width() == old(board).spec_width(),
        final(board).spec_height() == old(board).spec_height(),
        final(board).spec_mines() == old(board).spec_mines(),
        forall|j: int, i: int|
            0 <= j < old(board).grid().len() && 0 <= i < old(board).grid()[j].len() ==> (
            #[trigger] final(board).grid()[j][i]).value == old(board).grid()[j][i].value,
        forall|j: int, i: int|
            0 <= j < old(board).grid().len() && 0 <= i < old(board).grid()[j].len() && (
            #[trigger] final(board).grid()[j][i]).state == CellState::Hidden ==> old(board).grid()[j][i].state == CellState::Hidden,
        old(board).spec_game_state() != GameState::GameOver && final(board).spec_game_state()
            != GameState::GameOver ==> final(board).spec_game_state() == old(board).spec_game_state(),
        old(changes)@.len() <= final(changes)@.len(),
        forall|i: int| 0 <= i < old(changes)@.len() ==> final(changes)@[i] == old(changes)@[i],
        // anything but a hidden in-bounds cell is a no-op
        old(board).spec_empty() || !old(board).in_bounds(x as int, y as int) || old(board).grid()[y as int][x as int].state != CellState::Hidden ==> *final(board) == *old(board)
            && final(changes)@ == old(changes)@,
        // a hidden mine detonates and everything is disclosed
        !old(board).spec_empty() && old(board).in_bounds(x as int, y as int) && old(board).grid()[y as int][x as int].state == CellState::Hidden && old(board).grid()[y as int][x
            as int].value == MINE_VALUE ==> final(board).spec_game_state() == GameState::GameOver
            && (forall|j: int, i: int|
            0 <= j < old(board).grid().len() && 0 <= i < old(board).grid()[j].len()
                ==> #[trigger] final(board).grid()[j][i] == (if j == y as int && i == x as int {
                CellDetails {
                    state: CellState::ShowMineExploded,
                    value: old(board).grid()[j][i].value,
                }
            } else {
                disclosed_cell(old(board).grid()[j][i])
            })) && changes_recorded(
            old(board).grid(),
            final(board).grid(),
            old(changes)@,
            final(changes)@,
        ),
        // a hidden numbered cell is revealed alone
        !old(board).spec_empty() && old(board).in_bounds(x as int, y as int) && old(board).grid()[y as int][x as int].state == CellState::Hidden && old(board).grid()[y as int][x
            as int].value != MINE_VALUE && old(board).grid()[y as int][x as int].value != 0
            ==> final(board).spec_game_state() == old(board).spec_game_state() && final(board).grid() == old(board).grid().update(
            y as int,
            old(board).grid()[y as int].update(
                x as int,
                CellDetails {
                    state: CellState::ShowValue,
                    value: old(board).grid()[y as int][x as int].value,
                },
            ),
        ) && final(board).spec_hidden_count() == old(board).spec_hidden_count() - 1 && final(changes)@ == old(changes)@.push(
            BoardChange { x, y, state: Some(CellState::ShowValue) },
        ),
        // a hidden zero cell is revealed and its whole neighborhood is opened
        !old(board).spec_empty() && old(board).in_bounds(x as int, y as int) && old(board).grid()[y as int][x as int].state == CellState::Hidden && old(board).grid()[y as int][x
            as int].value == 0 ==> final(board).grid()[y as int][x as int].state
            == CellState::ShowValue && (forall|a: int, b: int|
            adjacent(a, b, x as int, y as int) && 0 <= b < old(board).grid().len() && 0 <= a
                < old(board).grid()[b].len() ==> (#[trigger] final(board).grid()[b][a]).state
                != CellState::Hidden),
        // flood-fill closure: every cell this operation revealed as a zero
        // cell has no hidden neighbor left
        forall|x2: int, y2: int|
            #[trigger] revealed_zero(old(board).grid(), final(board).grid(), x2, y2) ==> forall|
                a: int,
                b: int,
            |
                adjacent(a, b, x2, y2) && 0 <= b < old(board).grid().len() && 0 <= a < old(board).grid()[b].len() ==> (#[trigger] final(board).grid()[b][a]).state
                    != CellState::Hidden,
        // every transition is recorded once in the diff
        changes_recorded(old(board).grid(), final(board).grid(), old(changes)@, final(changes)@),
        // every changed cell ends up permanently revealed
        forall|j: int, i: int|
            0 <= j < old(board).grid().len() && 0 <= i < old(board).grid()[j].len() && (
            #[trigger] final(board).grid()[j][i]) != old(board).grid()[j][i] ==> settled(
                final(board).grid()[j][i].state,
            ),
        // short of a detonation, the poke only reveals hidden non-mine cells
        old(board).spec_game_state() != GameState::GameOver && final(board).spec_game_state()
            != GameState::GameOver ==> only_reveals(old(board).grid(), final(board).grid()),
        // and the reveals are confined: every changed cell is the poked cell
        // or borders a zero cell this poke revealed
        old(board).spec_game_state() != GameState::GameOver && final(board).spec_game_state()
            != GameState::GameOver ==> forall|j: int, i: int|
            0 <= j < old(board).grid().len() && 0 <= i < old(board).grid()[j].len() && (
            #[trigger] final(board).grid()[j][i]) != old(board).grid()[j][i] ==> ((j == y as int
                && i == x as int) || borders_revealed_zero(
                old(board).grid(),
                final(board).grid(),
                i,
                j,
            )),
{
    match board.get_state(x, y) {
        Ok(CellState::Hidden) => {
            poke_hidden_cell(x, y, board, changes);
        },
        Ok(_) => {},
        Err(_) => {},
    }
}

/// Re-pokes the 8 cells around `(x, y)`: the quick-uncover (chord) action.
pub fn poke_around_cell(x: usize, y: usize, board: &mut Board, changes: &mut Vec<BoardChange>)
    requires
        old(board).wf(),
        !old(board).spec_empty(),
        old(board).in_bounds(x as int, y as int),
    ensures
        final(board).wf(),
        !final(board).spec_empty(),
        final(board).spec_width() == old(board).spec_width(),
        final(board).spec_height() == old(board).spec_height(),
        final(board).spec_mines() == old(board).spec_mines(),
        forall|j: int, i: int|
            0 <= j < old(board).grid().len() && 0 <= i < old(board).grid()[j].len() ==> (
            #[trigger] final(board).grid()[j][i]).value == old(board).grid()[j][i].value,
        forall|j: int, i: int|
            0 <= j < old(board).grid().len() && 0 <= i < old(board).grid()[j].len() && (
            #[trigger] final(board).grid()[j][i]).state == CellState::Hidden ==> old(board).grid()[j][i].state == CellState::Hidden,
        old(board).spec_game_state() != GameState::GameOver && final(board).spec_game_state()
            != GameState::GameOver ==> final(board).spec_game_state() == old(board).spec_game_state(),
        // every in-bounds neighbor is poked: none is left hidden
        forall|a: int, b: int|
            adjacent(a, b, x as int, y as int) && 0 <= b < old(board).grid().len() && 0 <= a
                < old(board).grid()[b].len() ==> (#[trigger] final(board).grid()[b][a]).state
                != CellState::Hidden,
        // flood-fill closure: every cell this operation revealed as a zero
        // cell has no hidden neighbor left
        forall|x2: int, y2: int|
            #[trigger] revealed_zero(old(board).grid(), final(board).grid(), x2, y2) ==> forall|
                a: int,
                b: int,
            |
                adjacent(a, b, x2, y2) && 0 <= b < old(board).grid().len() && 0 <= a < old(board).grid()[b].len() ==> (#[trigger] final(board).grid()[b][a]).state
                    != CellState::Hidden,
        // cells already permanently revealed are never touched
        forall|j: int, i: int|
            0 <= j < old(board).grid().len() && 0 <= i < old(board).grid()[j].len() && settled(
                (#[trigger] old(board).grid()[j][i]).state,
            ) ==> final(board).grid()[j][i] == old(board).grid()[j][i],
        // every transition is recorded once in the diff
        changes_recorded(old(board).grid(), final(board).grid(), old(changes)@, final(changes)@),
        // every changed cell ends up permanently revealed
        forall|j: int, i: int|
            0 <= j < old(board).grid().len() && 0 <= i < old(board).grid()[j].len() && (
            #[trigger] final(board).grid()[j][i]) != old(board).grid()[j][i] ==> settled(
                final(board).grid()[j][i].state,
            ),
        // short of a detonation, the chord only reveals hidden non-mine cells
        old(board).spec_game_state() != GameState::GameOver && final(board).spec_game_state()
            != GameState::GameOver ==> only_reveals(old(board).grid(), final(board).grid()),
        // and the reveals are confined: every changed cell borders the
        // chorded cell or a zero cell this chord revealed
        old(board).spec_game_state() != GameState::GameOver && final(board).spec_game_state()
            != GameState::GameOver ==> forall|j: int, i: int|
            0 <= j < old(board).grid().len() && 0 <= i < old(board).grid()[j].len() && (
            #[trigger] final(board).grid()[j][i]) != old(board).grid()[j][i] ==> (adjacent(
                i,
                j,
                x as int,
                y as int,
            ) || borders_revealed_zero(old(board).grid(), final(board).grid(), i, j)),
{
    let wl = neighbor_worklist(x, y, board.get_width(), board.get_height());
    let ghost ns = wl@;
    run_poke_worklist(board, wl, changes);
    proof {
        let gb = old(board).grid();
        if old(board).spec_game_state() != GameState::GameOver && board.spec_game_state()
            != GameState::GameOver {
            assert forall|j: int, i: int|
                0 <= j < gb.len() && 0 <= i < gb[j].len() && (#[trigger] board.grid()[j][i])
                    != gb[j][i] && !borders_revealed_zero(gb, board.grid(), i, j) implies
                adjacent(i, j, x as int, y as int) by {
                assert(ws_contains(ns, i, j));
                let k = choose|k: int|
                    0 <= k < ns.len() && (#[trigger] ns[k]).0 as int == i && ns[k].1 as int
                        == j;
            }
        }
        assert forall|a: int, b: int|
            adjacent(a, b, x as int, y as int) && 0 <= b < gb.len() && 0 <= a < gb[b].len()
            implies (#[trigger] board.grid()[b][a]).state != CellState::Hidden by {
            assert(ws_contains(ns, a, b));
            let k = choose|k: int|
                0 <= k < ns.len() && (#[trigger] ns[k]).0 as int == a && ns[k].1 as int == b;
            assert(board.grid()[ns[k].1 as int][ns[k].0 as int].state != CellState::Hidden);
        }
    }
}

/// Poking an already revealed numbered cell: the quick-uncover, gated by the
/// settings; protected quick-uncover fires only when the flags around the
/// cell match its value exactly.
pub fn poke_shown_cell(
    x: usize,
    y: usize,
    board: &mut Board,
    changes: &mut Vec<BoardChange>,
    settings: &Settings,
)
    requires
        old(board).wf(),
        !old(board).spec_empty(),
        old(board).in_bounds(x as int, y as int),
    ensures
        final(board).wf(),
        !final(board).spec_empty(),
        final(board).spec_width() == old(board).spec_width(),
        final(board).spec_height() == old(board).spec_height(),
        final(board).spec_mines() == old(board).spec_mines(),
        forall|j: int, i: int|
            0 <= j < old(board).grid().len() && 0 <= i < old(board).grid()[j].len() ==> (
            #[trigger] final(board).grid()[j][i]).value == old(board).grid()[j][i].value,
        forall|j: int, i: int|
            0 <= j < old(board).grid().len() && 0 <= i < old(board).grid()[j].len() && (
            #[trigger] final(board).grid()[j][i]).state == CellState::Hidden ==> old(board).grid()[j][i].state == CellState::Hidden,
        old(board).spec_game_state() != GameState::GameOver && final(board).spec_game_state()
            != GameState::GameOver ==> final(board).spec_game_state() == old(board).spec_game_state(),
        !settings.quick_uncover ==> *final(board) == *old(board) && final(changes)@ == old(
            changes,
        )@,
        settings.quick_uncover && settings.protected_quick_uncover && neighbor_flag_count(
            old(board).grid(),
            x as int,
            y as int,
        ) != old(board).grid()[y as int][x as int].value as int ==> *final(board) == *old(board)
            && final(changes)@ == old(changes)@,
        // when the chord fires, every in-bounds neighbor is poked
        settings.quick_uncover && (!settings.protected_quick_uncover || neighbor_flag_count(
            old(board).grid(),
            x as int,
            y as int,
        ) == old(board).grid()[y as int][x as int].value as int) ==> forall|a: int, b: int|
            adjacent(a, b, x as int, y as int) && 0 <= b < old(board).grid().len() && 0 <= a
                < old(board).grid()[b].len() ==> (#[trigger] final(board).grid()[b][a]).state
                != CellState::Hidden,
        // cells already permanently revealed are never touched
        forall|j: int, i: int|
            0 <= j < old(board).grid().len() && 0 <= i < old(board).grid()[j].len() && settled(
                (#[trigger] old(board).grid()[j][i]).state,
            ) ==> final(board).grid()[j][i] == old(board).grid()[j][i],
        // flood-fill closure: every cell this operation revealed as a zero
        // cell has no hidden neighbor left
        forall|x2: int, y2: int|
            #[trigger] revealed_zero(old(board).grid(), final(board).grid(), x2, y2) ==> forall|
                a: int,
                b: int,
            |
                adjacent(a, b, x2, y2) && 0 <= b < old(board).grid().len() && 0 <= a < old(board).grid()[b].len() ==> (#[trigger] final(board).grid()[b][a]).state
                    != CellState::Hidden,
        // every transition is recorded once in the diff
        changes_recorded(old(board).grid(), final(board).grid(), old(changes)@, final(changes)@),
        // every changed cell ends up permanently revealed
        forall|j: int, i: int|
            0 <= j < old(board).grid().len() && 0 <= i < old(board).grid()[j].len() && (
            #[trigger] final(board).grid()[j][i]) != old(board).grid()[j][i] ==> settled(
                final(board).grid()[j][i].state,
            ),
        // short of a detonation, the chord only reveals hidden non-mine cells
        old(board).spec_game_state() != GameState::GameOver && final(board).spec_game_state()
            != GameState::GameOver ==> only_reveals(old(board).grid(), final(board).grid()),
        // and the reveals are confined: every changed cell borders the
        // chorded cell or a zero cell this chord revealed
        old(board).spec_game_state() != GameState::GameOver && final(board).spec_game_state()
            != GameState::GameOver ==> forall|j: int, i: int|
            0 <= j < old(board).grid().len() && 0 <= i < old(board).grid()[j].len() && (
            #[trigger] final(board).grid()[j][i]) != old(board).grid()[j][i] ==> (adjacent(
                i,
                j,
                x as int,
                y as int,
            ) || borders_revealed_zero(old(board).grid(), final(board).grid(), i, j)),
{
    if settings.is_quick_uncover_enabled() {
        if settings.is_protected_uncover_enabled() {
            let flags = count_flags(x, y, board);
            if let Ok(v) = board.get_value(x, y) {
                if v == flags {
                    poke_around_cell(x, y, board, changes);
                }
            }
        } else {
            poke_around_cell(x, y, board, changes);
        }
    }
}

/// The win evaluation that closes every poke and every mark that flagged a
/// cell: when the game is running and
/// every cell still in play is an unflagged mine, the game is won and the
/// remaining mines are flagged (recorded like any other change).
fn evaluate_win(board: &mut Board, changes: &mut Vec<BoardChange>)
    requires
        old(board).wf(),
    ensures
        final(board).wf(),
        final(board).spec_width() == old(board).spec_width(),
        final(board).spec_height() == old(board).spec_height(),
        final(board).spec_mines() == old(board).spec_mines(),
        forall|j: int, i: int|
            0 <= j < old(board).grid().len() && 0 <= i < old(board).grid()[j].len() ==> (
            #[trigger] final(board).grid()[j][i]).value == old(board).grid()[j][i].value,
        old(board).spec_game_state() == GameState::Playing && old(board).spec_hidden_count()
            as int == old(board).spec_mines() as int - old(board).spec_flag_count() as int && old(board).spec_flag_count() <= old(board).spec_mines() ==> final(board).spec_game_state()
            == GameState::GameWon && (forall|j: int, i: int|
            0 <= j < old(board).grid().len() && 0 <= i < old(board).grid()[j].len()
                ==> #[trigger] final(board).grid()[j][i] == won_cell(old(board).grid()[j][i]))
            && changes_recorded(
            old(board).grid(),
            final(board).grid(),
            old(changes)@,
            final(changes)@,
        ),
        !(old(board).spec_game_state() == GameState::Playing && old(board).spec_hidden_count()
            as int == old(board).spec_mines() as int - old(board).spec_flag_count() as int && old(board).spec_flag_count() <= old(board).spec_mines()) ==> *final(board) == *old(board)
            && final(changes)@ == old(changes)@,
{
    if board.get_game_state() == GameState::Playing && board.all_mines_found() {
        board.set_game_state(GameState::GameWon);
        flag_remaining_mines(board, changes);
    }
}

/// Composes the loss disclosure with the (skipped) win evaluation.
proof fn lemma_poke_loss_case(
    b0: Board,
    bmid: Board,
    b1: Board,
    x: int,
    y: int,
    cmid: Seq<BoardChange>,
    cfin: Seq<BoardChange>,
)
    requires
        bmid.spec_game_state() == GameState::GameOver,
        forall|j: int, i: int|
            0 <= j < b0.grid().len() && 0 <= i < b0.grid()[j].len() ==> #[trigger] bmid.grid()[j][i] == (if j == y && i == x {
                CellDetails { state: CellState::ShowMineExploded, value: b0.grid()[j][i].value }
            } else {
                disclosed_cell(b0.grid()[j][i])
            }),
        changes_recorded(b0.grid(), bmid.grid(), Seq::empty(), cmid),
        b1 == bmid,
        cfin == cmid,
    ensures
        poke_loss_post(b0, b1, x, y, cfin),
{
}

/// Composes a single numbered reveal with the win evaluation behind it.
proof fn lemma_poke_number_case(
    b0: Board,
    bmid: Board,
    b1: Board,
    x: int,
    y: int,
    cmid: Seq<BoardChange>,
    cfin: Seq<BoardChange>,
)
    requires
        0 <= y < b0.grid().len(),
        0 <= x < b0.grid()[y].len(),
        0 <= x <= usize::MAX && 0 <= y <= usize::MAX,
        b0.grid()[y][x].state == CellState::Hidden,
        grid_same_dims(b0.grid(), b1.grid()),
        bmid.grid() == b0.grid().update(
            y,
            b0.grid()[y].update(
                x,
                CellDetails { state: CellState::ShowValue, value: b0.grid()[y][x].value },
            ),
        ),
        bmid.spec_game_state() == b0.spec_game_state(),
        bmid.spec_hidden_count() as int == b0.spec_hidden_count() as int - 1,
        bmid.spec_flag_count() == b0.spec_flag_count(),
        bmid.spec_mines() == b0.spec_mines(),
        cmid =~= seq![
            BoardChange { x: x as usize, y: y as usize, state: Some(CellState::ShowValue) },
        ],
        (bmid.spec_game_state() == GameState::Playing && bmid.spec_hidden_count() as int
            == bmid.spec_mines() as int - bmid.spec_flag_count() as int && bmid.spec_flag_count()
            <= bmid.spec_mines()) ==> b1.spec_game_state() == GameState::GameWon && (forall|
            j: int,
            i: int,
        |
            0 <= j < bmid.grid().len() && 0 <= i < bmid.grid()[j].len() ==> #[trigger] b1.grid()[j][i] == won_cell(bmid.grid()[j][i])) && changes_recorded(
            bmid.grid(),
            b1.grid(),
            cmid,
            cfin,
        ),
        !(bmid.spec_game_state() == GameState::Playing && bmid.spec_hidden_count() as int
            == bmid.spec_mines() as int - bmid.spec_flag_count() as int && bmid.spec_flag_count()
            <= bmid.spec_mines()) ==> b1 == bmid && cfin == cmid,
    ensures
        poke_number_post(b0, b1, x, y, cfin),
{
    let won = bmid.spec_game_state() == GameState::Playing && bmid.spec_hidden_count() as int
        == bmid.spec_mines() as int - bmid.spec_flag_count() as int && bmid.spec_flag_count()
        <= bmid.spec_mines();
    if won {
        assert(cfin[0] == cmid[0]);
        lemma_changes_recorded_one(
            b0.grid(),
            bmid.grid(),
            Seq::<BoardChange>::empty(),
            x as usize,
            y as usize,
            CellState::ShowValue,
        );
        assert forall|j: int, i: int|
            0 <= j < b0.grid().len() && 0 <= i < b0.grid()[j].len() && (
            #[trigger] bmid.grid()[j][i]).state != b0.grid()[j][i].state implies b1.grid()[j][i]
            == bmid.grid()[j][i] by {
            assert(j == y && i == x);
            assert(b1.grid()[j][i] == won_cell(bmid.grid()[j][i]));
        }
        lemma_changes_recorded_trans(
            b0.grid(),
            bmid.grid(),
            b1.grid(),
            Seq::<BoardChange>::empty(),
            cmid,
            cfin,
        );
    } else {
        assert(cfin =~= seq![
            BoardChange { x: x as usize, y: y as usize, state: Some(CellState::ShowValue) },
        ]);
    }
}

/// Composes a zero-cell flood with the win evaluation behind it.
proof fn lemma_poke_flood_case(b0: Board, bmid: Board, b1: Board, x: int, y: int)
    requires
        0 <= y < b0.grid().len(),
        0 <= x < b0.grid()[y].len(),
        grid_same_dims(b0.grid(), bmid.grid()),
        bmid.grid()[y][x].state == CellState::ShowValue,
        forall|a: int, b: int|
            adjacent(a, b, x, y) && 0 <= b < b0.grid().len() && 0 <= a < b0.grid()[b].len() ==> (
            #[trigger] bmid.grid()[b][a]).state != CellState::Hidden,
        (bmid.spec_game_state() == GameState::Playing && bmid.spec_hidden_count() as int
            == bmid.spec_mines() as int - bmid.spec_flag_count() as int && bmid.spec_flag_count()
            <= bmid.spec_mines()) ==> forall|j: int, i: int|
            0 <= j < bmid.grid().len() && 0 <= i < bmid.grid()[j].len()
                ==> #[trigger] b1.grid()[j][i] == won_cell(bmid.grid()[j][i]),
        !(bmid.spec_game_state() == GameState::Playing && bmid.spec_hidden_count() as int
            == bmid.spec_mines() as int - bmid.spec_flag_count() as int && bmid.spec_flag_count()
            <= bmid.spec_mines()) ==> b1 == bmid,
    ensures
        poke_flood_post(b0, b1, x, y),
{
    let won = bmid.spec_game_state() == GameState::Playing && bmid.spec_hidden_count() as int
        == bmid.spec_mines() as int - bmid.spec_flag_count() as int && bmid.spec_flag_count()
        <= bmid.spec_mines();
    if won {
        assert(b1.grid()[y][x] == won_cell(bmid.grid()[y][x]));
        assert forall|a: int, b: int|
            adjacent(a, b, x, y) && 0 <= b < b0.grid().len() && 0 <= a < b0.grid()[b].len()
                implies (#[trigger] b1.grid()[b][a]).state != CellState::Hidden by {
            assert(b1.grid()[b][a] == won_cell(bmid.grid()[b][a]));
        }
    }
}

/// Composes a no-op dispatch with the win evaluation behind it.
proof fn lemma_poke_noop_case(b0: Board, b1: Board, cfin: Seq<BoardChange>)
    requires
        (b0.spec_game_state() == GameState::Playing && b0.spec_hidden_count() as int
            == b0.spec_mines() as int - b0.spec_flag_count() as int && b0.spec_flag_count()
            <= b0.spec_mines()) ==> b1.spec_game_state() == GameState::GameWon && (forall|
            j: int,
            i: int,
        |
            0 <= j < b0.grid().len() && 0 <= i < b0.grid()[j].len() ==> #[trigger] b1.grid()[j][i]
                == won_cell(b0.grid()[j][i])) && changes_recorded(
            b0.grid(),
            b1.grid(),
            Seq::empty(),
            cfin,
        ),
        !(b0.spec_game_state() == GameState::Playing && b0.spec_hidden_count() as int
            == b0.spec_mines() as int - b0.spec_flag_count() as int && b0.spec_flag_count()
            <= b0.spec_mines()) ==> b1 == b0 && cfin.len() == 0,
    ensures
        poke_noop_post(b0, b1, cfin),
{
}

/// The outcome of poking a hidden mine at `(x, y)`: the cell explodes, the
/// game is lost, every other mine is revealed, every wrong flag is marked
/// invalid, and each transition is recorded once in the diff.
pub open spec fn poke_loss_post(b0: Board, b1: Board, x: int, y: int, ch: Seq<BoardChange>) -> bool {
    &&& b1.spec_game_state() == GameState::GameOver
    &&& forall|j: int, i: int|
        0 <= j < b0.grid().len() && 0 <= i < b0.grid()[j].len() ==> #[trigger] b1.grid()[j][i]
            == (if j == y && i == x {
            CellDetails { state: CellState::ShowMineExploded, value: b0.grid()[j][i].value }
        } else {
            disclosed_cell(b0.grid()[j][i])
        })
    &&& changes_recorded(b0.grid(), b1.grid(), Seq::empty(), ch)
}

/// The outcome of poking a hidden numbered cell at `(x, y)`: the single
/// reveal, followed by the win evaluation where the reveal was the last safe
/// cell.
pub open spec fn poke_number_post(b0: Board, b1: Board, x: int, y: int, ch: Seq<
    BoardChange,
>) -> bool {
    let g0 = b0.grid();
    let rec = BoardChange { x: x as usize, y: y as usize, state: Some(CellState::ShowValue) };
    let mid = g0.update(
        y,
        g0[y].update(x, CellDetails { state: CellState::ShowValue, value: g0[y][x].value }),
    );
    if b0.spec_game_state() == GameState::Playing && b0.spec_hidden_count() as int - 1
        == b0.spec_mines() as int - b0.spec_flag_count() as int && b0.spec_flag_count()
        <= b0.spec_mines() {
        &&& b1.spec_game_state() == GameState::GameWon
        &&& forall|j: int, i: int|
            0 <= j < g0.len() && 0 <= i < g0[j].len() ==> #[trigger] b1.grid()[j][i] == won_cell(
                mid[j][i],
            )
        &&& ch.len() >= 1
        &&& ch[0] == rec
        &&& changes_recorded(g0, b1.grid(), Seq::empty(), ch)
    } else {
        &&& b1.spec_game_state() == b0.spec_game_state()
        &&& b1.grid() == mid
        &&& b1.spec_hidden_count() as int == b0.spec_hidden_count() as int - 1
        &&& b1.spec_flag_count() == b0.spec_flag_count()
        &&& ch =~= seq![rec]
    }
}

/// The outcome of poking a hidden zero cell at `(x, y)`: the cell is shown
/// and the flood leaves none of its neighbors hidden.
pub open spec fn poke_flood_post(b0: Board, b1: Board, x: int, y: int) -> bool {
    &&& b1.grid()[y][x].state == CellState::ShowValue
    &&& forall|a: int, b: int|
        adjacent(a, b, x, y) && 0 <= b < b0.grid().len() && 0 <= a < b0.grid()[b].len() ==> (
        #[trigger] b1.grid()[b][a]).state != CellState::Hidden
}

/// The outcome of a poke that cannot reveal anything: the board is untouched,
/// except that the win evaluation still runs and may close the game.
pub open spec fn poke_noop_post(b0: Board, b1: Board, ch: Seq<BoardChange>) -> bool {
    if b0.spec_game_state() == GameState::Playing && b0.spec_hidden_count() as int
        == b0.spec_mines() as int - b0.spec_flag_count() as int && b0.spec_flag_count()
        <= b0.spec_mines() {
        &&& b1.spec_game_state() == GameState::GameWon
        &&& forall|j: int, i: int|
            0 <= j < b0.grid().len() && 0 <= i < b0.grid()[j].len() ==> #[trigger] b1.grid()[j][i]
                == won_cell(b0.grid()[j][i])
        &&& changes_recorded(b0.grid(), b1.grid(), Seq::empty(), ch)
    } else {
        b1 == b0 && ch.len() == 0
    }
}

/// Pokes (reveals) the cell at `(x, y)`: reveal, flood fill or detonation on
/// hidden cells, quick-uncover on shown cells, no-op otherwise; then the win
/// check, which flags the remaining mines when every safe cell is accounted
/// for.
#[verifier::rlimit(100)]
pub fn poke(board: &mut Board, settings: &Settings, x: usize, y: usize) -> (gc: GameChange)
    requires
        old(board).wf(),
    ensures
        final(board).wf(),
        final(board).spec_width() == old(board).spec_width(),
        final(board).spec_height() == old(board).spec_height(),
        final(board).spec_mines() == old(board).spec_mines(),
        forall|j: int, i: int|
            0 <= j < old(board).grid().len() && 0 <= i < old(board).grid()[j].len() ==> (
            #[trigger] final(board).grid()[j][i]).value == old(board).grid()[j][i].value,
        // flood-fill closure: every cell this poke revealed as a zero cell
        // has no hidden neighbor left afterwards
        forall|x2: int, y2: int|
            #[trigger] revealed_zero(old(board).grid(), final(board).grid(), x2, y2) ==> forall|
                a: int,
                b: int,
            |
                adjacent(a, b, x2, y2) && 0 <= b < old(board).grid().len() && 0 <= a < old(board).grid()[b].len() ==> (#[trigger] final(board).grid()[b][a]).state
                    != CellState::Hidden,
        // loss disclosure: poking a hidden mine explodes it, loses the game,
        // and puts every mine and wrong flag on the table
        !old(board).spec_empty() && old(board).in_bounds(x as int, y as int) && old(board).grid()[y as int][x as int].state == CellState::Hidden && old(board).grid()[y as int][x
            as int].value == MINE_VALUE ==> poke_loss_post(
            *old(board),
            *final(board),
            x as int,
            y as int,
            gc.changes@,
        ),
        // a safe numbered reveal, with the win evaluation that may follow it
        !old(board).spec_empty() && old(board).in_bounds(x as int, y as int) && old(board).grid()[y as int][x as int].state == CellState::Hidden && old(board).grid()[y as int][x
            as int].value != MINE_VALUE && old(board).grid()[y as int][x as int].value != 0
            ==> poke_number_post(*old(board), *final(board), x as int, y as int, gc.changes@),
        // a zero reveal floods: the poked cell is shown and no neighbor of it
        // is left hidden
        !old(board).spec_empty() && old(board).in_bounds(x as int, y as int) && old(board).grid()[y as int][x as int].state == CellState::Hidden && old(board).grid()[y as int][x
            as int].value == 0 ==> poke_flood_post(
            *old(board),
            *final(board),
            x as int,
            y as int,
        ),
        // a cell that cannot be poked leaves the board alone, except for the
        // win evaluation
        (old(board).spec_empty() || !old(board).in_bounds(x as int, y as int) || (old(board).grid()[y as int][x as int].state != CellState::Hidden && old(board).grid()[y as int][x
            as int].state != CellState::ShowValue)) ==> poke_noop_post(
            *old(board),
            *final(board),
            gc.changes@,
        ),
        // poking an already revealed cell is the quick-uncover: a no-op
        // unless enabled and (when protected) the flags around the cell match
        // its value; when it fires, no neighbor of the cell is left hidden
        !old(board).spec_empty() && old(board).in_bounds(x as int, y as int) && old(board).grid()[y as int][x as int].state == CellState::ShowValue ==> {
            &&& (!settings.quick_uncover || (settings.protected_quick_uncover
                && neighbor_flag_count(old(board).grid(), x as int, y as int) != old(board).grid()[y as int][x as int].value as int)) ==> poke_noop_post(
                *old(board),
                *final(board),
                gc.changes@,
            )
            &&& (settings.quick_uncover && (!settings.protected_quick_uncover
                || neighbor_flag_count(old(board).grid(), x as int, y as int) == old(board).grid()[y as int][x as int].value as int)) ==> forall|a: int, b: int|
                adjacent(a, b, x as int, y as int) && 0 <= b < old(board).grid().len() && 0 <= a
                    < old(board).grid()[b].len() ==> (#[trigger] final(board).grid()[b][a]).state
                    != CellState::Hidden
        },
        // when the poke wins the game, every mine ends up flagged
        final(board).spec_game_state() == GameState::GameWon && old(board).spec_game_state()
            == GameState::Playing ==> forall|j: int, i: int|
            0 <= j < old(board).grid().len() && 0 <= i < old(board).grid()[j].len() && (
            #[trigger] final(board).grid()[j][i]).value == MINE_VALUE ==> final(board).grid()[j][i].state != CellState::Hidden,
        // every transition, the win auto-flags included, is recorded once in
        // the returned diff
        changes_recorded(old(board).grid(), final(board).grid(), Seq::empty(), gc.changes@),
        // the win evaluation never leaves a completed board running
        final(board).spec_game_state() == GameState::Playing ==> !win_pending(*final(board)),
        // short of a loss, a poke only reveals hidden non-mine cells and, on
        // a win, flags the hidden mines: flagged and questioned cells are
        // untouched and no mine is ever shown
        old(board).spec_game_state() != GameState::GameOver && final(board).spec_game_state()
            != GameState::GameOver ==> reveals_and_autoflags(
            old(board).grid(),
            final(board).grid(),
        ),
        // short of a loss or a win, the reveals are confined: every changed
        // cell is the poked cell, one of its 8 neighbors (the quick-uncover),
        // or borders a zero cell this poke revealed
        final(board).spec_game_state() == old(board).spec_game_state() && old(board).spec_game_state() != GameState::GameOver ==> forall|j: int, i: int|
            0 <= j < old(board).grid().len() && 0 <= i < old(board).grid()[j].len() && (
            #[trigger] final(board).grid()[j][i]) != old(board).grid()[j][i] ==> ((j == y as int
                && i == x as int) || adjacent(i, j, x as int, y as int) || borders_revealed_zero(
                old(board).grid(),
                final(board).grid(),
                i,
                j,
            )),
        gc.flag_count == final(board).spec_flag_count(),
        gc.hidden_cell_count == final(board).spec_hidden_count(),
        gc.mines_remaining as int == final(board).spec_mines() as int
            - final(board).spec_flag_count() as int,
        gc.game_state == final(board).spec_game_state(),
{
    let mut changes: Vec<BoardChange> = Vec::new();
    proof {
        assert(changes@ =~= Seq::<BoardChange>::empty());
    }
    match board.get_state(x, y) {
        Ok(CellState::Hidden) => poke_hidden_cell(x, y, board, &mut changes),
        Ok(CellState::ShowValue) => poke_shown_cell(x, y, board, &mut changes, settings),
        // Don't allow the user to poke a flagged (or question-marked) cell
        Ok(_) => {},
        Err(_) => {},
    }

    // Don't allow the game to be won by marking too many cells as flags
    let ghost gmid = board.grid();
    let ghost bmid = *board;
    let ghost cmid = changes@;
    evaluate_win(board, &mut changes);
    let ghost won = bmid.spec_game_state() == GameState::Playing && bmid.spec_hidden_count()
        as int == bmid.spec_mines() as int - bmid.spec_flag_count() as int
        && bmid.spec_flag_count() <= bmid.spec_mines();
    proof {
        let b0 = *old(board);
        let g0 = b0.grid();
        if won {
            assert forall|j: int, i: int|
                0 <= j < g0.len() && 0 <= i < g0[j].len() && (
                #[trigger] board.grid()[j][i]).value == MINE_VALUE implies board.grid()[j][i].state
                != CellState::Hidden by {
                assert(board.grid()[j][i] == won_cell(gmid[j][i]));
            }
        }
        assert forall|x2: int, y2: int|
            #[trigger] revealed_zero(g0, board.grid(), x2, y2) implies forall|a: int, b: int|
                adjacent(a, b, x2, y2) && 0 <= b < g0.len() && 0 <= a < g0[b].len() ==> (
                #[trigger] board.grid()[b][a]).state != CellState::Hidden by {
            if won {
                assert(board.grid()[y2][x2] == won_cell(gmid[y2][x2]));
            }
            assert(revealed_zero(g0, gmid, x2, y2));
            assert forall|a: int, b: int|
                adjacent(a, b, x2, y2) && 0 <= b < g0.len() && 0 <= a < g0[b].len() implies (
                #[trigger] board.grid()[b][a]).state != CellState::Hidden by {
                assert(gmid[b][a].state != CellState::Hidden);
                if won {
                    assert(board.grid()[b][a] == won_cell(gmid[b][a]));
                }
            }
        }
        if !b0.spec_empty() && b0.in_bounds(x as int, y as int) && g0[y as int][x as int].state
            == CellState::Hidden && g0[y as int][x as int].value == MINE_VALUE {
            lemma_poke_loss_case(b0, bmid, *board, x as int, y as int, cmid, changes@);
        }
        assert(grid_same_dims(g0, board.grid()));
        if won {
            assert forall|j: int, i: int|
                0 <= j < g0.len() && 0 <= i < g0[j].len() && (#[trigger] gmid[j][i]).state
                    != g0[j][i].state implies board.grid()[j][i] == gmid[j][i] by {
                assert(settled(gmid[j][i].state));
                assert(board.grid()[j][i] == won_cell(gmid[j][i]));
            }
            lemma_changes_recorded_trans(
                g0,
                gmid,
                board.grid(),
                Seq::<BoardChange>::empty(),
                cmid,
                changes@,
            );
        } else {
            assert(*board == bmid);
        }
        if b0.spec_game_state() != GameState::GameOver && board.spec_game_state()
            != GameState::GameOver {
            assert(bmid.spec_game_state() != GameState::GameOver);
            assert forall|j: int, i: int|
                0 <= j < g0.len() && 0 <= i < g0[j].len() implies ((
            #[trigger] board.grid()[j][i]) == g0[j][i] || (g0[j][i].state == CellState::Hidden
                && g0[j][i].value != MINE_VALUE && board.grid()[j][i] == (CellDetails {
                state: CellState::ShowValue,
                value: g0[j][i].value,
            })) || (g0[j][i].state == CellState::Hidden && g0[j][i].value == MINE_VALUE
                && board.grid()[j][i] == (CellDetails {
                state: CellState::Flagged,
                value: g0[j][i].value,
            }))) by {
                if won {
                    assert(board.grid()[j][i] == won_cell(gmid[j][i]));
                } else {
                    assert(board.grid()[j][i] == gmid[j][i]);
                }
            }
        }
        if !b0.spec_empty() && b0.in_bounds(x as int, y as int) && g0[y as int][x as int].state
            == CellState::Hidden && g0[y as int][x as int].value != MINE_VALUE && g0[y as int][x
            as int].value != 0 {
            assert(cmid =~= seq![BoardChange { x, y, state: Some(CellState::ShowValue) }]);
            lemma_poke_number_case(b0, bmid, *board, x as int, y as int, cmid, changes@);
        }
        if !b0.spec_empty() && b0.in_bounds(x as int, y as int) && g0[y as int][x as int].state
            == CellState::Hidden && g0[y as int][x as int].value == 0 {
            lemma_poke_flood_case(b0, bmid, *board, x as int, y as int);
        }
        if b0.spec_empty() || !b0.in_bounds(x as int, y as int) || (g0[y as int][x as int].state
            != CellState::Hidden && g0[y as int][x as int].state != CellState::ShowValue) {
            assert(bmid == b0);
            assert(cmid =~= Seq::<BoardChange>::empty());
            lemma_poke_noop_case(b0, *board, changes@);
        }
        if board.spec_game_state() == b0.spec_game_state() && b0.spec_game_state()
            != GameState::GameOver {
            assert(!won);
            assert(*board == bmid);
        }
        if !b0.spec_empty() && b0.in_bounds(x as int, y as int) && g0[y as int][x as int].state
            == CellState::ShowValue {
            if settings.quick_uncover && (!settings.protected_quick_uncover
                || neighbor_flag_count(g0, x as int, y as int) == g0[y as int][x as int].value
                as int) {
                assert forall|a: int, b: int|
                    adjacent(a, b, x as int, y as int) && 0 <= b < g0.len() && 0 <= a
                        < g0[b].len() implies (#[trigger] board.grid()[b][a]).state
                    != CellState::Hidden by {
                    assert(gmid[b][a].state != CellState::Hidden);
                    if won {
                        assert(board.grid()[b][a] == won_cell(gmid[b][a]));
                    }
                }
            } else {
                assert(bmid == b0);
                assert(cmid =~= Seq::<BoardChange>::empty());
                lemma_poke_noop_case(b0, *board, changes@);
            }
        }
    }
    GameChange {
        flag_count: board.get_flag_count(),
        hidden_cell_count: board.get_hidden_cell_count(),
        mines_remaining: board.get_remaining_mines(),
        game_state: board.get_game_state(),
        changes,
    }
}

// ------------------------------------------------------------------
// Mark: the flag cycle.
// ------------------------------------------------------------------

/// A state the mark operation acts on.
pub open spec fn markable(s: CellState) -> bool {
    s == CellState::Hidden || s == CellState::Flagged || s == CellState::Questioned
}

/// The flag cycle: Hidden -> Flagged -> (Questioned ->) Hidden; revealed
/// cells are left alone.
pub open spec fn mark_next(s: CellState, questions_enabled: bool) -> CellState {
    match s {
        CellState::Hidden => CellState::Flagged,
        CellState::Flagged => if questions_enabled {
            CellState::Questioned
        } else {
            CellState::Hidden
        },
        CellState::Questioned => CellState::Hidden,
        _ => s,
    }
}

/// The game is running and `all_mines_found` holds: the win evaluation fires
/// on such a board.
pub open spec fn win_pending(b: Board) -> bool {
    &&& b.spec_game_state() == GameState::Playing
    &&& b.spec_hidden_count() as int == b.spec_mines() as int - b.spec_flag_count() as int
    &&& b.spec_flag_count() <= b.spec_mines()
}

/// The outcome of a mark that cycles the in-play cell at `(x, y)`: the
/// transition itself with its counter movements, followed — when the mark
/// flagged the last mine — by the win evaluation, which closes the game and
/// flags the remaining mines.
pub open spec fn mark_cycle_post(
    b0: Board,
    b1: Board,
    x: int,
    y: int,
    questions_enabled: bool,
    ch: Seq<BoardChange>,
) -> bool {
    let g0 = b0.grid();
    let o = g0[y][x].state;
    let n = mark_next(o, questions_enabled);
    let rec = BoardChange { x: x as usize, y: y as usize, state: Some(n) };
    let mid = g0.update(y, g0[y].update(x, CellDetails { state: n, value: g0[y][x].value }));
    if n == CellState::Flagged && b0.spec_game_state() == GameState::Playing
        && b0.spec_hidden_count() as int + hidden_delta(o, n) == b0.spec_mines() as int - (
    b0.spec_flag_count() as int + flag_delta(o, n)) && b0.spec_flag_count() as int + flag_delta(
        o,
        n,
    ) <= b0.spec_mines() as int {
        &&& b1.spec_game_state() == GameState::GameWon
        &&& forall|j: int, i: int|
            0 <= j < g0.len() && 0 <= i < g0[j].len() ==> #[trigger] b1.grid()[j][i] == won_cell(
                mid[j][i],
            )
        &&& ch.len() >= 1
        &&& ch[0] == rec
    } else {
        &&& b1.spec_game_state() == b0.spec_game_state()
        &&& b1.grid() == mid
        &&& b1.spec_flag_count() as int == b0.spec_flag_count() as int + flag_delta(o, n)
        &&& b1.spec_hidden_count() as int == b0.spec_hidden_count() as int + hidden_delta(o, n)
        &&& ch =~= seq![rec]
    }
}

/// Marking one cell cycles it Hidden -> Flagged -> Questioned -> Hidden when
/// question marks are enabled, and Hidden -> Flagged -> Hidden when they are
/// not: it is back at Hidden exactly every 3rd (resp. 2nd) mark and at no
/// earlier point.
pub proof fn lemma_mark_cycle()
    ensures
        forall|q: bool| #[trigger] mark_next(CellState::Hidden, q) == CellState::Flagged,
        mark_next(CellState::Flagged, true) == CellState::Questioned,
        mark_next(CellState::Questioned, true) == CellState::Hidden,
        mark_next(CellState::Flagged, false) == CellState::Hidden,
        forall|q: bool| #[trigger] mark_next(CellState::Hidden, q) != CellState::Hidden,
        mark_next(mark_next(CellState::Hidden, true), true) != CellState::Hidden,
        mark_next(mark_next(mark_next(CellState::Hidden, true), true), true)
            == CellState::Hidden,
        mark_next(mark_next(CellState::Hidden, false), false) == CellState::Hidden,
{
}

/// Marks (flag-cycles) the cell at `(x, y)`. Out-of-bounds coordinates, an
/// empty board and revealed cells are no-ops; the game phase is never
/// consulted, so marking works even after the game has ended. A mark that
/// flags a cell is followed by the win evaluation: flagging the last mine
/// wins the game.
pub fn mark(board: &mut Board, settings: &Settings, x: usize, y: usize) -> (gc: GameChange)
    requires
        old(board).wf(),
    ensures
        final(board).wf(),
        final(board).spec_width() == old(board).spec_width(),
        final(board).spec_height() == old(board).spec_height(),
        final(board).spec_mines() == old(board).spec_mines(),
        ({
            let g0 = old(board).grid();
            if old(board).spec_empty() || !old(board).in_bounds(x as int, y as int) || !markable(
                g0[y as int][x as int].state,
            ) {
                *final(board) == *old(board) && final(board).grid() == g0
                    && gc.changes@.len() == 0
            } else {
                mark_cycle_post(
                    *old(board),
                    *final(board),
                    x as int,
                    y as int,
                    settings.questions_enabled,
                    gc.changes@,
                )
            }
        }),
        changes_recorded(old(board).grid(), final(board).grid(), Seq::empty(), gc.changes@),
        gc.flag_count == final(board).spec_flag_count(),
        gc.hidden_cell_count == final(board).spec_hidden_count(),
        gc.mines_remaining as int == final(board).spec_mines() as int
            - final(board).spec_flag_count() as int,
        gc.game_state == final(board).spec_game_state(),
{
    let mut changes: Vec<BoardChange> = Vec::new();
    let ghost b0 = *old(board);
    match board.get_state(x, y) {
        // From Hidden, we always go to Flagged; flagging may complete the
        // board, so the win evaluation runs afterwards
        Ok(CellState::Hidden) => {
            add_state_change(x, y, CellState::Flagged, &mut changes, board);
            let ghost bmid = *board;
            let ghost cmid = changes@;
            evaluate_win(board, &mut changes);
            proof {
                lemma_changes_recorded_one(
                    b0.grid(),
                    bmid.grid(),
                    Seq::<BoardChange>::empty(),
                    x,
                    y,
                    CellState::Flagged,
                );
                if win_pending(bmid) {
                    // the marked cell is flagged, and the win pass touches
                    // hidden mines only: the two diffs are disjoint
                    assert forall|j: int, i: int|
                        0 <= j < bmid.grid().len() && 0 <= i < bmid.grid()[j].len() && (
                        #[trigger] bmid.grid()[j][i]).state != b0.grid()[j][i].state implies
                        board.grid()[j][i] == bmid.grid()[j][i] by {
                        assert(j == y as int && i == x as int);
                        assert(board.grid()[j][i] == won_cell(bmid.grid()[j][i]));
                    }
                    lemma_changes_recorded_trans(
                        b0.grid(),
                        bmid.grid(),
                        board.grid(),
                        Seq::<BoardChange>::empty(),
                        cmid,
                        changes@,
                    );
                }
            }
        },
        // From Flagged we go to Questioned if it's enabled, or back to Hidden if it's not
        Ok(CellState::Flagged) => {
            let next_state = if settings.is_questions_enabled() {
                CellState::Questioned
            } else {
                CellState::Hidden
            };
            add_state_change(x, y, next_state, &mut changes, board);
            proof {
                lemma_changes_recorded_one(
                    b0.grid(),
                    board.grid(),
                    Seq::<BoardChange>::empty(),
                    x,
                    y,
                    next_state,
                );
            }
        },
        // From Questioned we always go back to Hidden
        Ok(CellState::Questioned) => {
            add_state_change(x, y, CellState::Hidden, &mut changes, board);
            proof {
                lemma_changes_recorded_one(
                    b0.grid(),
                    board.grid(),
                    Seq::<BoardChange>::empty(),
                    x,
                    y,
                    CellState::Hidden,
                );
            }
        },
        // At any other cell state, or off the board, do nothing
        Ok(_) => {},
        Err(_) => {},
    }
    GameChange {
        flag_count: board.get_flag_count(),
        hidden_cell_count: board.get_hidden_cell_count(),
        mines_remaining: board.get_remaining_mines(),
        game_state: board.get_game_state(),
        changes,
    }
}

} // verus!
