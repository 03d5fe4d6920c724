//! What a grid looks like: as a list of terminal cells to paint, as text, and
//! as a table of neighbour counts. Nothing here writes anywhere; a caller
//! takes the values and puts them on a screen or a stream.

use crate::board::Board;
use crate::cell::State;
use crate::grid::Grid;
use vstd::prelude::*;
use vstd::string::StringExecFns;

verus! {

/// The width of the frame of cells, on every side of the grid, that is
/// computed but never painted.
pub const BORDER: u16 = 2;

/// The number of terminal columns that one painted cell takes.
pub const CELL_WIDTH: u16 = 2;

/// The number of terminal rows that one painted cell takes.
pub const CELL_HEIGHT: u16 = 1;

/// One terminal cell and the state to paint it in.
#[derive(Debug, Clone, Copy, PartialEq, Eq, Structural)]
pub struct Paint {
    pub column: u16,
    pub row: u16,
    pub state: State,
}

/// Whether the cell at `(x, y)` is painted: it is, unless it lies in the
/// border.
pub open spec fn shown(board: Board, x: int, y: int) -> bool {
    BORDER <= x < board.width - BORDER && BORDER <= y < board.height - BORDER
}

/// Whether every painted cell of the board has terminal coordinates below
/// 65536. A board of which nothing is painted is paintable.
pub open spec fn paintable(board: Board) -> bool {
    board.width > 2 * BORDER && board.height > 2 * BORDER ==> (board.width - 2 * BORDER)
        * CELL_WIDTH <= 0x10000 && (board.height - 2 * BORDER) * CELL_HEIGHT <= 0x10000
}

/// The terminal cells that the cell with linear index `index` is painted on,
/// each as column, row and state: none if the cell is in the border, else a
/// block of `CELL_WIDTH` by `CELL_HEIGHT`, row by row, whose place is that of
/// the cell counted from the inner corner of the border.
pub open spec fn cell_paints(board: Board, index: int) -> Seq<(int, int, State)> {
    let (x, y) = board.position_of(index);
    if shown(board, x, y) {
        Seq::new(
            (CELL_WIDTH * CELL_HEIGHT) as nat,
            |k: int|
                (
                    (x - BORDER) * CELL_WIDTH + k % (CELL_WIDTH as int),
                    (y - BORDER) * CELL_HEIGHT + k / (CELL_WIDTH as int),
                    board.cells[index],
                ),
        )
    } else {
        Seq::empty()
    }
}

/// The terminal cells that the first `count` cells of the board are painted
/// on, in the order of the cells.
pub open spec fn paints_before(board: Board, count: nat) -> Seq<(int, int, State)>
    decreases count,
{
    if count == 0 {
        Seq::empty()
    } else {
        paints_before(board, (count - 1) as nat) + cell_paints(board, count - 1)
    }
}

/// Everything that is painted of the board.
pub open spec fn paints(board: Board) -> Seq<(int, int, State)> {
    paints_before(board, board.cells.len())
}

/// A list of paints as columns, rows and states.
pub open spec fn paints_view(list: Seq<Paint>) -> Seq<(int, int, State)> {
    Seq::new(list.len(), |i: int| (list[i].column as int, list[i].row as int, list[i].state))
}

/// The character that stands for a cell in text.
pub open spec fn glyph(state: State) -> char {
    match state {
        State::Live => '1',
        State::Dead => '0',
    }
}

/// The text of the first `count` cells of the board: each cell as its glyph
/// and a space, and a line feed after the last cell of every row.
pub open spec fn text_before(board: Board, count: nat) -> Seq<char>
    decreases count,
{
    if count == 0 {
        Seq::empty()
    } else {
        let cells = text_before(board, (count - 1) as nat).push(
            glyph(board.cells[count - 1]),
        ).push(' ');
        if count % board.width == 0 {
            cells.push('\n')
        } else {
            cells
        }
    }
}

/// The board as text, one line per row.
pub open spec fn text_of(board: Board) -> Seq<char> {
    text_before(board, board.cells.len())
}

/// The smaller of two lengths.
pub open spec fn shorter(a: nat, b: nat) -> nat {
    if a <= b {
        a
    } else {
        b
    }
}

/// The neighbour counts `neibos`, cell by cell, with the count of every dead
/// cell replaced by zero. It is as long as the shorter of the counts and the
/// cells.
pub open spec fn live_only(board: Board, neibos: Seq<usize>) -> Seq<usize> {
    Seq::new(
        shorter(neibos.len(), board.cells.len()),
        |i: int|
            if board.cells[i] == State::Live {
                neibos[i]
            } else {
                0
            },
    )
}

impl Grid {
    /// The terminal cells to paint for this grid, in painting order, or
    /// `None` if the grid is too large for terminal coordinates.
    pub fn paint_list(&self) -> (list: Option<Vec<Paint>>)
        ensures
            list is Some <==> paintable(self@),
            list matches Some(strokes) ==> paints_view(strokes@) == paints(self@),
    {
        let dim = self.dim();
        let cells = self.cells();
        if dim.x > 2 * BORDER && dim.y > 2 * BORDER {
            let inner_width: u32 = (dim.x - 2 * BORDER) as u32;
            let inner_height: u32 = (dim.y - 2 * BORDER) as u32;
            let cell_width: u32 = CELL_WIDTH as u32;
            let cell_height: u32 = CELL_HEIGHT as u32;
            if inner_width * cell_width > 0x10000 || inner_height * cell_height > 0x10000 {
                return None;
            }
        }
        let mut strokes: Vec<Paint> = Vec::new();
        let mut idx: usize = 0;
        while idx < cells.len()
            invariant
                idx <= cells.len(),
                cells@ == self@.cells,
                self@.wf(),
                dim.x == self@.width,
                dim.y == self@.height,
                paintable(self@),
                paints_view(strokes@) == paints_before(self@, idx as nat),
            decreases cells.len() - idx,
        {
            let pos = self.idx2pos(idx);
            let ghost before = paints_view(strokes@);
            let ghost block = cell_paints(self@, idx as int);
            if pos.x >= BORDER && dim.x > BORDER && pos.x < dim.x - BORDER && pos.y >= BORDER
                && dim.y > BORDER && pos.y < dim.y - BORDER {
                let left: u16 = (pos.x - BORDER) * CELL_WIDTH;
                let top: u16 = (pos.y - BORDER) * CELL_HEIGHT;
                let state = cells[idx];
                let mut dy: u16 = 0;
                while dy < CELL_HEIGHT
                    invariant
                        dy <= CELL_HEIGHT,
                        left + CELL_WIDTH <= 0x10000,
                        top + CELL_HEIGHT <= 0x10000,
                        block.len() == CELL_WIDTH * CELL_HEIGHT,
                        forall|k: int|
                            0 <= k < block.len() ==> block[k] == (
                                left + k % (CELL_WIDTH as int),
                                top + k / (CELL_WIDTH as int),
                                state,
                            ),
                        paints_view(strokes@) == before + block.take(dy * CELL_WIDTH),
                    decreases CELL_HEIGHT - dy,
                {
                    let mut dx: u16 = 0;
                    while dx < CELL_WIDTH
                        invariant
                            dx <= CELL_WIDTH,
                            dy < CELL_HEIGHT,
                            left + CELL_WIDTH <= 0x10000,
                            top + CELL_HEIGHT <= 0x10000,
                            block.len() == CELL_WIDTH * CELL_HEIGHT,
                            forall|k: int|
                                0 <= k < block.len() ==> block[k] == (
                                    left + k % (CELL_WIDTH as int),
                                    top + k / (CELL_WIDTH as int),
                                    state,
                                ),
                            paints_view(strokes@) == before + block.take(dy * CELL_WIDTH + dx),
                        decreases CELL_WIDTH - dx,
                    {
                        let ghost drawn = dy * CELL_WIDTH + dx;
                        let ghost so_far = paints_view(strokes@);
                        strokes.push(Paint { column: left + dx, row: top + dy, state });
                        assert(before + block.take(drawn + 1) =~= so_far.push(block[drawn]));
                        dx += 1;
                    }
                    dy += 1;
                }
            }
            idx += 1;
        }
        Some(strokes)
    }

    /// The grid as text: every cell as `1` (live) or `0` (dead) followed by
    /// a space, one line per row, every line ended by a line feed.
    pub fn to_text(&self) -> (text: String)
        ensures
            text@ == text_of(self@),
    {
        let dim = self.dim();
        let cells = self.cells();
        let width = dim.x as usize;
        let mut text = String::new();
        let mut idx: usize = 0;
        while idx < cells.len()
            invariant
                idx <= cells.len(),
                cells@ == self@.cells,
                0 < width == self@.width,
                text@ == text_before(self@, idx as nat),
            decreases cells.len() - idx,
        {
            proof {
                reveal_strlit("1 ");
                reveal_strlit("0 ");
                reveal_strlit("\n");
            }
            match cells[idx] {
                State::Live => text.append("1 "),
                State::Dead => text.append("0 "),
            }
            idx += 1;
            if idx % width == 0 {
                text.append("\n");
            }
        }
        text
    }

    /// The neighbour counts `neibos`, cell by cell, with the count of every
    /// dead cell replaced by zero: what the live cells see around them.
    pub fn neibos_of_live_cells(&self, neibos: &[usize]) -> (masked: Vec<usize>)
        ensures
            masked@ == live_only(self@, neibos@),
    {
        let cells = self.cells();
        let mut masked: Vec<usize> = Vec::new();
        let mut idx: usize = 0;
        while idx < neibos.len() && idx < cells.len()
            invariant
                idx <= neibos.len(),
                idx <= cells.len(),
                cells@ == self@.cells,
                masked.len() == idx,
                forall|i: int| 0 <= i < idx ==> masked[i] == live_only(self@, neibos@)[i],
            decreases cells.len() - idx,
        {
            if cells[idx] == State::Live {
                masked.push(neibos[idx]);
            } else {
                masked.push(0);
            }
            idx += 1;
        }
        masked
    }
}

} // verus!
