//! The mathematical model of one generation, and the facts about it that the
//! executable grid is proved against.

use crate::cell::{transition, State};
use vstd::arithmetic::div_mod::{
    lemma_fundamental_div_mod, lemma_fundamental_div_mod_converse, lemma_mod_pos_bound,
};
use vstd::prelude::*;

verus! {

/// One generation of the automaton: a `width` by `height` rectangle of cells
/// stored row by row.
pub struct Board {
    pub width: nat,
    pub height: nat,
    pub cells: Seq<State>,
}

/// 1 for a live cell, 0 otherwise.
pub open spec fn tally(live: bool) -> int {
    if live {
        1
    } else {
        0
    }
}

/// In a rectangle of `width` by `height` cells stored row by row, the cell
/// with linear index `index` lies in a row and a column of the rectangle.
pub proof fn lemma_row_and_column(index: int, width: int, height: int)
    requires
        0 < width,
        0 <= index < width * height,
    ensures
        0 <= index / width < height,
        0 <= index % width < width,
{
    lemma_fundamental_div_mod(index, width);
    lemma_mod_pos_bound(index, width);
    let q = index / width;
    assert(0 <= q < height) by (nonlinear_arith)
        requires
            0 <= index < width * height,
            0 < width,
            index == width * q + index % width,
            0 <= index % width < width,
    ;
}

impl Board {
    /// Both dimensions are positive and there is exactly one cell per position.
    pub open spec fn wf(self) -> bool {
        &&& self.width > 0
        &&& self.height > 0
        &&& self.cells.len() == self.width * self.height
    }

    /// The board of the given size on which every cell is `fill`.
    pub open spec fn uniform(width: nat, height: nat, fill: State) -> Board {
        Board { width, height, cells: Seq::new(width * height, |i: int| fill) }
    }

    /// Whether `(x, y)` names a cell of the board.
    pub open spec fn in_bounds(self, x: int, y: int) -> bool {
        0 <= x < self.width && 0 <= y < self.height
    }

    /// Whether `index` names a cell of the board.
    pub open spec fn valid_index(self, index: int) -> bool {
        0 <= index < self.width * self.height
    }

    /// The linear index of the cell at column `x`, row `y`.
    pub open spec fn index_of(self, x: int, y: int) -> int {
        x + y * self.width
    }

    /// The column and row of the cell with linear index `index`.
    pub open spec fn position_of(self, index: int) -> (int, int) {
        (index % (self.width as int), index / (self.width as int))
    }

    /// Whether `(x, y)` is a live cell. Positions off the board hold no cell
    /// and so are never live: the board is clipped at its edges.
    pub open spec fn live_at(self, x: int, y: int) -> bool {
        self.in_bounds(x, y) && self.cells[self.index_of(x, y)] == State::Live
    }

    /// The number of live cells among the eight Moore neighbours of `(x, y)`.
    pub open spec fn live_neighbors(self, x: int, y: int) -> int {
        tally(self.live_at(x - 1, y - 1)) + tally(self.live_at(x, y - 1)) + tally(
            self.live_at(x + 1, y - 1),
        ) + tally(self.live_at(x - 1, y)) + tally(self.live_at(x + 1, y)) + tally(
            self.live_at(x - 1, y + 1),
        ) + tally(self.live_at(x, y + 1)) + tally(self.live_at(x + 1, y + 1))
    }

    /// The number of live neighbours of the cell with linear index `index`.
    pub open spec fn live_neighbors_of(self, index: int) -> int {
        self.live_neighbors(self.position_of(index).0, self.position_of(index).1)
    }

    /// The state of cell `index` in the following generation. It depends on
    /// this generation alone.
    pub open spec fn next_cell(self, index: int) -> State {
        transition(self.cells[index], self.live_neighbors_of(index))
    }

    /// The following generation: the rule applied to every cell at once.
    pub open spec fn step(self) -> Board {
        Board {
            width: self.width,
            height: self.height,
            cells: Seq::new(self.cells.len(), |i: int| self.next_cell(i)),
        }
    }

    /// The generation reached after `n` steps.
    pub open spec fn steps(self, n: nat) -> Board
        decreases n,
    {
        if n == 0 {
            self
        } else {
            self.steps((n - 1) as nat).step()
        }
    }

    /// The positions of the live cells.
    pub open spec fn live_set(self) -> Set<(int, int)> {
        Set::new(|p: (int, int)| self.live_at(p.0, p.1))
    }

    /// A position on the board has a valid linear index.
    pub proof fn lemma_index_valid(self, x: int, y: int)
        requires
            self.wf(),
            self.in_bounds(x, y),
        ensures
            self.valid_index(self.index_of(x, y)),
    {
        let w = self.width as int;
        let h = self.height as int;
        assert(0 <= y * w && y * w + w <= h * w) by (nonlinear_arith)
            requires
                0 <= y < h,
                0 < w,
        ;
    }

    /// A valid linear index names a position on the board.
    pub proof fn lemma_position_in_bounds(self, index: int)
        requires
            self.wf(),
            self.valid_index(index),
        ensures
            self.in_bounds(self.position_of(index).0, self.position_of(index).1),
    {
        lemma_row_and_column(index, self.width as int, self.height as int);
    }

    /// Turning a valid index into a position and back gives the index again.
    pub proof fn lemma_index_of_position(self, index: int)
        requires
            self.wf(),
            self.valid_index(index),
        ensures
            self.index_of(self.position_of(index).0, self.position_of(index).1) == index,
    {
        let w = self.width as int;
        lemma_fundamental_div_mod(index, w);
        assert(w * (index / w) == (index / w) * w) by (nonlinear_arith);
    }

    /// Turning a position on the board into an index and back gives the
    /// position again.
    pub proof fn lemma_position_of_index(self, x: int, y: int)
        requires
            self.wf(),
            self.in_bounds(x, y),
        ensures
            self.position_of(self.index_of(x, y)) == (x, y),
    {
        lemma_fundamental_div_mod_converse(self.index_of(x, y), self.width as int, y, x);
    }

    /// A cell is live exactly when its position is.
    pub proof fn lemma_live_at_position(self, index: int)
        requires
            self.wf(),
            self.valid_index(index),
        ensures
            self.live_at(self.position_of(index).0, self.position_of(index).1) <==> self.cells[index]
                == State::Live,
    {
        self.lemma_position_in_bounds(index);
        self.lemma_index_of_position(index);
    }

    /// A cell has at most eight live neighbours.
    pub proof fn lemma_live_neighbors_bounds(self, x: int, y: int)
        ensures
            0 <= self.live_neighbors(x, y) <= 8,
    {
    }

    /// Stepping keeps the board well formed and its size unchanged.
    pub proof fn lemma_step_wf(self)
        requires
            self.wf(),
        ensures
            self.step().wf(),
            self.step().width == self.width,
            self.step().height == self.height,
    {
    }

    /// The step is synchronous: every cell of the following generation is
    /// the rule applied to that cell and its neighbours as they are in this
    /// generation, whatever becomes of the other cells.
    pub proof fn lemma_step_is_synchronous(self, index: int)
        requires
            self.wf(),
            self.valid_index(index),
        ensures
            self.step().cells[index] == transition(
                self.cells[index],
                self.live_neighbors(self.position_of(index).0, self.position_of(index).1),
            ),
    {
    }

    /// Two boards of the same size with the same live cells are the same board.
    pub proof fn lemma_equal_by_live_set(self, other: Board)
        requires
            self.wf(),
            other.wf(),
            self.width == other.width,
            self.height == other.height,
            self.live_set() == other.live_set(),
        ensures
            self == other,
    {
        assert forall|i: int| 0 <= i < self.cells.len() implies self.cells[i] == other.cells[i] by {
            self.lemma_live_at_position(i);
            other.lemma_live_at_position(i);
            let p = self.position_of(i);
            assert(self.live_set().contains(p) == self.live_at(p.0, p.1));
            assert(other.live_set().contains(p) == other.live_at(p.0, p.1));
        }
        assert(self.cells =~= other.cells);
    }
}

} // verus!
