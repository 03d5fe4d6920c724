//! Classic patterns, and what the rule provably does to them on any board
//! that holds them.

use crate::board::{tally, Board};
use crate::cell::{transition, State};
use vstd::prelude::*;

verus! {

/// The state of a cell that is live exactly when `live` holds.
pub open spec fn state_of(live: bool) -> State {
    if live {
        State::Live
    } else {
        State::Dead
    }
}

/// The 2x2 block whose top-left cell is `(x, y)`.
pub open spec fn block(x: int, y: int) -> Set<(int, int)> {
    Set::new(|p: (int, int)| x <= p.0 <= x + 1 && y <= p.1 <= y + 1)
}

/// Three cells side by side in one row, centred on `(x, y)`.
pub open spec fn blinker_row(x: int, y: int) -> Set<(int, int)> {
    Set::new(|p: (int, int)| x - 1 <= p.0 <= x + 1 && p.1 == y)
}

/// Three cells stacked in one column, centred on `(x, y)`.
pub open spec fn blinker_column(x: int, y: int) -> Set<(int, int)> {
    Set::new(|p: (int, int)| p.0 == x && y - 1 <= p.1 <= y + 1)
}

/// How many of `at - 1`, `at` and `at + 1` lie in the range from 0 up to, not
/// including, `size`, when `at` itself does.
pub open spec fn span(at: int, size: nat) -> int {
    tally(0 <= at - 1) + 1 + tally(at + 1 < size)
}

/// The number of the eight neighbours of `(x, y)` that lie in `live`.
pub open spec fn neighbors_in(live: Set<(int, int)>, x: int, y: int) -> int {
    tally(live.contains((x - 1, y - 1))) + tally(live.contains((x, y - 1))) + tally(
        live.contains((x + 1, y - 1)),
    ) + tally(live.contains((x - 1, y))) + tally(live.contains((x + 1, y))) + tally(
        live.contains((x - 1, y + 1)),
    ) + tally(live.contains((x, y + 1))) + tally(live.contains((x + 1, y + 1)))
}

/// What the rule makes of the cell at `p` when the live cells are `live`.
pub open spec fn fate(live: Set<(int, int)>, p: (int, int)) -> State {
    transition(state_of(live.contains(p)), neighbors_in(live, p.0, p.1))
}

/// On a board whose live cells are `live`, liveness and neighbour counts can
/// be read off the set.
pub proof fn lemma_read_off_live_set(board: Board, live: Set<(int, int)>, x: int, y: int)
    requires
        board.live_set() == live,
    ensures
        board.live_at(x, y) == live.contains((x, y)),
        board.live_neighbors(x, y) == neighbors_in(live, x, y),
{
    assert forall|p: (int, int)| board.live_at(p.0, p.1) == live.contains(p) by {
        assert(board.live_set().contains(p) == board.live_at(p.0, p.1));
    }
}

/// After a step, a position is live exactly when it is on the board and the
/// rule, applied to its old state and old neighbour count, says so.
pub proof fn lemma_step_live_at(board: Board, x: int, y: int)
    requires
        board.wf(),
    ensures
        board.step().live_at(x, y) <==> board.in_bounds(x, y) && transition(
            state_of(board.live_at(x, y)),
            board.live_neighbors(x, y),
        ) == State::Live,
{
    if board.in_bounds(x, y) {
        board.lemma_index_valid(x, y);
        board.lemma_position_of_index(x, y);
    }
}

/// One step of a board whose live cells are `before` leaves exactly the
/// cells `after` alive, provided `after` lies on the board and agrees with
/// the rule at every position of the board.
proof fn lemma_step_live_set(board: Board, before: Set<(int, int)>, after: Set<(int, int)>)
    requires
        board.wf(),
        board.live_set() == before,
        forall|p: (int, int)| #[trigger] after.contains(p) ==> board.in_bounds(p.0, p.1),
        forall|p: (int, int)|
            board.in_bounds(p.0, p.1) ==> (#[trigger] after.contains(p) <==> fate(before, p)
                == State::Live),
    ensures
        board.step().live_set() == after,
{
    assert forall|p: (int, int)| board.step().live_set().contains(p) == after.contains(p) by {
        lemma_step_live_at(board, p.0, p.1);
        lemma_read_off_live_set(board, before, p.0, p.1);
    }
}

/// On a board of live cells only, a cell sees every neighbour that the edges
/// leave it: three in a corner, five on an edge and eight inside, on a board
/// at least two cells wide and high.
pub proof fn lemma_all_live_neighbors(width: nat, height: nat, x: int, y: int)
    requires
        width > 0,
        height > 0,
        0 <= x < width,
        0 <= y < height,
    ensures
        Board::uniform(width, height, State::Live).live_neighbors(x, y) == span(x, width) * span(
            y,
            height,
        ) - 1,
{
    let board = Board::uniform(width, height, State::Live);
    assert forall|px: int, py: int| board.live_at(px, py) == board.in_bounds(px, py) by {
        if board.in_bounds(px, py) {
            board.lemma_index_valid(px, py);
        }
    }
    let columns = span(x, width);
    let rows = span(y, height);
    assert(columns * rows == if columns == 1 {
        rows
    } else if columns == 2 {
        rows + rows
    } else {
        rows + rows + rows
    }) by (nonlinear_arith)
        requires
            1 <= columns <= 3,
    ;
}

/// A block does not change in one step, wherever on the board it lies.
pub proof fn lemma_block_survives_step(board: Board, x: int, y: int)
    requires
        board.wf(),
        board.in_bounds(x, y),
        board.in_bounds(x + 1, y + 1),
        board.live_set() == block(x, y),
    ensures
        board.step() == board,
{
    lemma_step_live_set(board, block(x, y), block(x, y));
    board.lemma_step_wf();
    board.step().lemma_equal_by_live_set(board);
}

/// The block is a still life: a board whose only live cells are a 2x2
/// block lying on the board is unchanged after any number of steps.
pub proof fn lemma_block_is_still_life(board: Board, x: int, y: int, n: nat)
    requires
        board.wf(),
        board.in_bounds(x, y),
        board.in_bounds(x + 1, y + 1),
        board.live_set() == block(x, y),
    ensures
        board.steps(n) == board,
    decreases n,
{
    if n > 0 {
        lemma_block_is_still_life(board, x, y, (n - 1) as nat);
        lemma_block_survives_step(board, x, y);
    }
}

/// Among three cells in a row, the rule keeps the middle one and brings the
/// cells above and below it to life; nothing else is or becomes alive.
proof fn lemma_row_turns(x: int, y: int, p: (int, int))
    ensures
        fate(blinker_row(x, y), p) == State::Live <==> blinker_column(x, y).contains(p),
{
}

/// Among three cells in a column, the rule keeps the middle one and brings
/// the cells left and right of it to life; nothing else is or becomes alive.
proof fn lemma_column_turns(x: int, y: int, p: (int, int))
    ensures
        fate(blinker_column(x, y), p) == State::Live <==> blinker_row(x, y).contains(p),
{
}

/// A row of three live cells, alone on the board and not touching its edge,
/// becomes a column of three in one step.
pub proof fn lemma_blinker_row_step(board: Board, x: int, y: int)
    requires
        board.wf(),
        board.in_bounds(x - 1, y - 1),
        board.in_bounds(x + 1, y + 1),
        board.live_set() == blinker_row(x, y),
    ensures
        board.step().live_set() == blinker_column(x, y),
{
    assert forall|p: (int, int)| board.in_bounds(p.0, p.1) implies (#[trigger] blinker_column(
        x,
        y,
    ).contains(p) <==> fate(blinker_row(x, y), p) == State::Live) by {
        lemma_row_turns(x, y, p);
    }
    lemma_step_live_set(board, blinker_row(x, y), blinker_column(x, y));
}

/// A column of three live cells, alone on the board and not touching its
/// edge, becomes a row of three in one step.
pub proof fn lemma_blinker_column_step(board: Board, x: int, y: int)
    requires
        board.wf(),
        board.in_bounds(x - 1, y - 1),
        board.in_bounds(x + 1, y + 1),
        board.live_set() == blinker_column(x, y),
    ensures
        board.step().live_set() == blinker_row(x, y),
{
    assert forall|p: (int, int)| board.in_bounds(p.0, p.1) implies (#[trigger] blinker_row(
        x,
        y,
    ).contains(p) <==> fate(blinker_column(x, y), p) == State::Live) by {
        lemma_column_turns(x, y, p);
    }
    lemma_step_live_set(board, blinker_column(x, y), blinker_row(x, y));
}

/// The blinker is an oscillator of period two: three live cells in a row,
/// alone on the board and not touching its edge, stand in a column after one
/// step and are back in their row after two.
pub proof fn lemma_blinker_oscillates(board: Board, x: int, y: int)
    requires
        board.wf(),
        board.in_bounds(x - 1, y - 1),
        board.in_bounds(x + 1, y + 1),
        board.live_set() == blinker_row(x, y),
    ensures
        board.step().live_set() == blinker_column(x, y),
        board.steps(2) == board,
{
    lemma_blinker_row_step(board, x, y);
    board.lemma_step_wf();
    let turned = board.step();
    lemma_blinker_column_step(turned, x, y);
    turned.lemma_step_wf();
    turned.step().lemma_equal_by_live_set(board);
    reveal_with_fuel(Board::steps, 3);
}

} // verus!
