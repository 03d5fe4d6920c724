//! The executable grid: cell storage, coordinate mapping, neighbour counting
//! and the generation advance.

use crate::board::{lemma_row_and_column, Board};
use crate::cell::{transition, State};
use crate::pattern::{
    parse_pattern, pattern_board, rectangular, rows_board, rows_view, PatternError,
};
use vstd::prelude::*;

verus! {

/// A column `x` and a row `y`. Used both for a cell's position and for the
/// grid's dimensions.
#[derive(Debug, Clone, Copy, PartialEq, Eq, Structural)]
pub struct GridPos {
    pub x: u16,
    pub y: u16,
}

/// A fixed-size grid of cells, stored row by row.
///
/// Every grid has positive dimensions and holds exactly one cell per
/// position; its view is the [`Board`] it currently shows.
#[derive(Debug)]
pub struct Grid {
    dim: GridPos,
    cells: Vec<State>,
}

impl View for Grid {
    type V = Board;

    closed spec fn view(&self) -> Board {
        Board { width: self.dim.x as nat, height: self.dim.y as nat, cells: self.cells@ }
    }
}

/// What `built` holds, with the grid as the board it shows.
pub open spec fn built_view(built: Result<Grid, PatternError>) -> Result<Board, PatternError> {
    match built {
        Ok(grid) => Ok(grid@),
        Err(e) => Err(e),
    }
}

impl Grid {
    #[verifier::type_invariant]
    spec fn well_formed(&self) -> bool {
        self@.wf()
    }

    /// A grid of the given size on which every cell is `fill`.
    fn uniform(sizex: u16, sizey: u16, fill: State) -> (grid: Grid)
        requires
            sizex > 0,
            sizey > 0,
        ensures
            grid@ == Board::uniform(sizex as nat, sizey as nat, fill),
    {
        assert(sizex * sizey <= 0xffff * 0xffff) by (nonlinear_arith)
            requires
                sizex <= 0xffff,
                sizey <= 0xffff,
        ;
        let count: usize = sizex as usize * sizey as usize;
        let mut cells: Vec<State> = Vec::new();
        while cells.len() < count
            invariant
                cells.len() <= count,
                forall|i: int| 0 <= i < cells.len() ==> cells[i] == fill,
            decreases count - cells.len(),
        {
            cells.push(fill);
        }
        let grid = Grid { dim: GridPos { x: sizex, y: sizey }, cells };
        assert(grid@.cells =~= Board::uniform(sizex as nat, sizey as nat, fill).cells);
        grid
    }

    /// A grid of `sizex` columns and `sizey` rows on which every cell is live.
    pub fn new(sizex: u16, sizey: u16) -> (grid: Grid)
        requires
            sizex > 0,
            sizey > 0,
        ensures
            grid@ == Board::uniform(sizex as nat, sizey as nat, State::Live),
    {
        Grid::uniform(sizex, sizey, State::Live)
    }

    /// A grid of `sizex` columns and `sizey` rows on which every cell is dead.
    pub fn new_dead(sizex: u16, sizey: u16) -> (grid: Grid)
        requires
            sizex > 0,
            sizey > 0,
        ensures
            grid@ == Board::uniform(sizex as nat, sizey as nat, State::Dead),
    {
        Grid::uniform(sizex, sizey, State::Dead)
    }

    /// A grid that shows the given rows, the first row on top.
    ///
    /// Fails with `Empty` when there is no row or the first row has no cell,
    /// with `RaggedRows` when the rows are not all of one length, and with
    /// `TooLarge` when there are more than 65535 rows or columns.
    pub fn from_rows(rows: &Vec<Vec<State>>) -> (built: Result<Grid, PatternError>)
        ensures
            built_view(built) == rows_board(rows_view(rows@)),
    {
        let ghost model = rows_view(rows@);
        let height = rows.len();
        if height == 0 {
            return Err(PatternError::Empty);
        }
        let width = rows[0].len();
        if width == 0 {
            return Err(PatternError::Empty);
        }
        let mut y: usize = 0;
        while y < height
            invariant
                y <= height,
                0 < height == rows.len(),
                0 < width == rows[0].len(),
                model == rows_view(rows@),
                forall|i: int| 0 <= i < y ==> (#[trigger] model[i]).len() == width,
            decreases height - y,
        {
            if rows[y].len() != width {
                assert(model[y as int].len() != model[0].len());
                return Err(PatternError::RaggedRows);
            }
            y += 1;
        }
        if height > 0xffff || width > 0xffff {
            return Err(PatternError::TooLarge);
        }
        assert(width * height <= 0xffff * 0xffff) by (nonlinear_arith)
            requires
                width <= 0xffff,
                height <= 0xffff,
        ;
        let count: usize = width * height;
        let mut cells: Vec<State> = Vec::new();
        let mut idx: usize = 0;
        while idx < count
            invariant
                idx <= count,
                count == width * height,
                0 < width,
                height == rows.len(),
                model == rows_view(rows@),
                rectangular(model),
                model[0].len() == width,
                cells.len() == idx,
                forall|i: int|
                    0 <= i < idx ==> cells[i] == model[i / (width as int)][i % (width as int)],
            decreases count - idx,
        {
            proof {
                lemma_row_and_column(idx as int, width as int, height as int);
            }
            let row = &rows[idx / width];
            assert(row@ == model[idx as int / (width as int)]);
            cells.push(row[idx % width]);
            idx += 1;
        }
        let grid = Grid { dim: GridPos { x: width as u16, y: height as u16 }, cells };
        assert(grid@.cells =~= rows_board(model).unwrap().cells);
        Ok(grid)
    }

    /// A grid that shows the pattern written in `text`: one row per line,
    /// cells separated by commas, `0` for a dead cell and `1` for a live one.
    ///
    /// Fails with `Empty` on a text of no bytes, with `InvalidToken` when any
    /// token is not one of the two markers, with `RaggedRows` when the lines
    /// are not all of one length, and with `TooLarge` when there are more
    /// than 65535 rows or columns.
    pub fn from_pattern(text: &[u8]) -> (built: Result<Grid, PatternError>)
        ensures
            built_view(built) == pattern_board(text@),
    {
        match parse_pattern(text) {
            Ok(rows) => Grid::from_rows(&rows),
            Err(e) => Err(e),
        }
    }

    /// The grid's dimensions: `x` columns and `y` rows.
    pub fn dim(&self) -> (dim: GridPos)
        ensures
            dim.x == self@.width,
            dim.y == self@.height,
            self@.wf(),
    {
        proof {
            use_type_invariant(self);
        }
        self.dim
    }

    /// The cells in row-major order, for reading.
    pub fn cells(&self) -> (cells: &Vec<State>)
        ensures
            cells@ == self@.cells,
            self@.wf(),
    {
        proof {
            use_type_invariant(self);
        }
        &self.cells
    }

    /// The position of the cell with linear index `idx`.
    pub fn idx2pos(&self, idx: usize) -> (pos: GridPos)
        requires
            self@.valid_index(idx as int),
        ensures
            (pos.x as int, pos.y as int) == self@.position_of(idx as int),
            self@.in_bounds(pos.x as int, pos.y as int),
    {
        proof {
            use_type_invariant(self);
            self@.lemma_position_in_bounds(idx as int);
        }
        let width = self.dim.x as usize;
        GridPos { x: (idx % width) as u16, y: (idx / width) as u16 }
    }

    /// The linear index of the cell at `pos`.
    pub fn pos2idx(&self, pos: GridPos) -> (idx: usize)
        requires
            self@.in_bounds(pos.x as int, pos.y as int),
        ensures
            idx as int == self@.index_of(pos.x as int, pos.y as int),
            self@.valid_index(idx as int),
    {
        proof {
            use_type_invariant(self);
            self@.lemma_index_valid(pos.x as int, pos.y as int);
        }
        assert(pos.y * self.dim.x <= 0xffff * 0xffff) by (nonlinear_arith)
            requires
                pos.y <= 0xffff,
                self.dim.x <= 0xffff,
        ;
        pos.x as usize + pos.y as usize * self.dim.x as usize
    }

    /// Whether `(x, y)` is a live cell; positions off the grid are not.
    fn is_live_at(&self, x: i32, y: i32) -> (live: bool)
        ensures
            live == self@.live_at(x as int, y as int),
    {
        proof {
            use_type_invariant(self);
        }
        if x >= 0 && x < self.dim.x as i32 && y >= 0 && y < self.dim.y as i32 {
            let idx = self.pos2idx(GridPos { x: x as u16, y: y as u16 });
            self.cells[idx] == State::Live
        } else {
            false
        }
    }

    /// The number of live cells among the eight neighbours of cell `idx`.
    /// Neighbours that would fall off the grid are not counted.
    pub fn count_live_neibos(&self, idx: usize) -> (count: usize)
        requires
            self@.valid_index(idx as int),
        ensures
            count as int == self@.live_neighbors_of(idx as int),
            count <= 8,
    {
        let pos = self.idx2pos(idx);
        let x = pos.x as i32;
        let y = pos.y as i32;
        let mut count: usize = 0;
        if self.is_live_at(x - 1, y - 1) {
            count += 1;
        }
        if self.is_live_at(x, y - 1) {
            count += 1;
        }
        if self.is_live_at(x + 1, y - 1) {
            count += 1;
        }
        if self.is_live_at(x - 1, y) {
            count += 1;
        }
        if self.is_live_at(x + 1, y) {
            count += 1;
        }
        if self.is_live_at(x - 1, y + 1) {
            count += 1;
        }
        if self.is_live_at(x, y + 1) {
            count += 1;
        }
        if self.is_live_at(x + 1, y + 1) {
            count += 1;
        }
        count
    }

    /// The next state of a cell in state `state` with `live_neibos` live
    /// neighbours.
    pub fn game_rules(state: &State, live_neibos: usize) -> (next: State)
        ensures
            next == transition(*state, live_neibos as int),
    {
        match *state {
            State::Live => if live_neibos < 2 || live_neibos > 3 {
                State::Dead
            } else {
                State::Live
            },
            State::Dead => if live_neibos == 3 {
                State::Live
            } else {
                State::Dead
            },
        }
    }

    /// Advances the grid by one generation. Every new cell is computed from
    /// the generation that was current when the call began.
    pub fn update_grid(&mut self)
        ensures
            final(self)@ == old(self)@.step(),
    {
        proof {
            use_type_invariant(&*self);
        }
        let count = self.cells.len();
        let mut next: Vec<State> = Vec::new();
        let mut idx: usize = 0;
        while idx < count
            invariant
                self@ == old(self)@,
                self@.wf(),
                count == self@.cells.len(),
                idx <= count,
                next.len() == idx,
                forall|i: int| 0 <= i < idx ==> next[i] == self@.next_cell(i),
            decreases count - idx,
        {
            let live_neibos = self.count_live_neibos(idx);
            next.push(Grid::game_rules(&self.cells[idx], live_neibos));
            idx += 1;
        }
        assert(next@ =~= self@.step().cells);
        self.cells = next;
    }
}

} // verus!
