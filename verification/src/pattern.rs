//! The textual pattern format: one row per line, cells separated by commas,
//! each cell written `0` (dead) or `1` (live).
//!
//! Blank bytes at either end of a line are ignored, so both kinds of line
//! ending are read alike. Every line counts, an empty one too: a text that
//! ends in a line break ends in an empty row, which holds no valid cell.

use crate::board::Board;
use crate::cell::State;
use vstd::arithmetic::div_mod::lemma_fundamental_div_mod_converse;
use vstd::prelude::*;
use vstd::slice::slice_subrange;

verus! {

/// The byte that ends a row: a line feed.
pub const ROW_SEPARATOR: u8 = 0x0a;

/// The byte between two cells of a row: a comma.
pub const CELL_SEPARATOR: u8 = 0x2c;

/// The token for a dead cell: the digit zero.
pub const DEAD_MARKER: u8 = 0x30;

/// The token for a live cell: the digit one.
pub const LIVE_MARKER: u8 = 0x31;

/// Why a pattern could not be made into a grid.
#[derive(Debug, Clone, Copy, PartialEq, Eq, Structural)]
pub enum PatternError {
    /// There is no cell at all.
    Empty,
    /// Some cell is neither of the two markers.
    InvalidToken,
    /// Two rows differ in length.
    RaggedRows,
    /// There are more rows, or more cells in a row, than a grid can hold.
    TooLarge,
}

/// Whether `byte` is ASCII white space: a space, a tab, a line feed, a
/// vertical tab, a form feed or a carriage return.
pub open spec fn is_blank(byte: u8) -> bool {
    byte == 0x20 || 0x09 <= byte <= 0x0d
}

/// The pieces of `text` between the occurrences of `sep`, in order. There is
/// always one piece more than there are separators.
pub open spec fn split(text: Seq<u8>, sep: u8) -> Seq<Seq<u8>>
    decreases text.len(),
{
    if text.len() == 0 {
        seq![Seq::empty()]
    } else {
        let before = split(text.drop_last(), sep);
        if text.last() == sep {
            before.push(Seq::empty())
        } else {
            before.drop_last().push(before.last().push(text.last()))
        }
    }
}

/// `text` without the blank bytes at its two ends.
pub open spec fn trim(text: Seq<u8>) -> Seq<u8>
    decreases text.len(),
{
    if text.len() > 0 && is_blank(text.first()) {
        trim(text.drop_first())
    } else if text.len() > 0 && is_blank(text.last()) {
        trim(text.drop_last())
    } else {
        text
    }
}

/// The cell that `token` stands for, if it is one of the two markers.
pub open spec fn token_state(token: Seq<u8>) -> Option<State> {
    if token == seq![DEAD_MARKER] {
        Some(State::Dead)
    } else if token == seq![LIVE_MARKER] {
        Some(State::Live)
    } else {
        None
    }
}

/// The cells of the tokens, if every token is a marker.
pub open spec fn tokens_states(tokens: Seq<Seq<u8>>) -> Option<Seq<State>> {
    if forall|j: int| 0 <= j < tokens.len() ==> token_state(#[trigger] tokens[j]) is Some {
        Some(Seq::new(tokens.len(), |j: int| token_state(tokens[j]).unwrap()))
    } else {
        None
    }
}

/// The row of cells that one line of text describes, if every token on it
/// is a marker.
pub open spec fn line_states(line: Seq<u8>) -> Option<Seq<State>> {
    tokens_states(split(trim(line), CELL_SEPARATOR))
}

/// The rows of cells that the lines describe, or the reason there are none.
pub open spec fn lines_rows(lines: Seq<Seq<u8>>) -> Result<Seq<Seq<State>>, PatternError> {
    if forall|i: int| 0 <= i < lines.len() ==> line_states(#[trigger] lines[i]) is Some {
        Ok(Seq::new(lines.len(), |i: int| line_states(lines[i]).unwrap()))
    } else {
        Err(PatternError::InvalidToken)
    }
}

/// The rows of cells that `text` describes, or the reason it describes none:
/// `Empty` for a text of no bytes, else `InvalidToken` if any token on any
/// line is not a marker.
pub open spec fn pattern_rows(text: Seq<u8>) -> Result<Seq<Seq<State>>, PatternError> {
    if text.len() == 0 {
        Err(PatternError::Empty)
    } else {
        lines_rows(split(text, ROW_SEPARATOR))
    }
}

/// Whether all rows have the length of the first.
pub open spec fn rectangular(rows: Seq<Seq<State>>) -> bool {
    forall|i: int| 0 <= i < rows.len() ==> (#[trigger] rows[i]).len() == rows[0].len()
}

/// The board that the rows make up, or the reason they make up none:
/// `Empty` when there is no row or the first row has no cell, else
/// `RaggedRows` when some row differs in length from the first, else
/// `TooLarge` when a dimension is beyond 65535. On the board, the cell at
/// column `x` of row `y` is `rows[y][x]`.
pub open spec fn rows_board(rows: Seq<Seq<State>>) -> Result<Board, PatternError> {
    if rows.len() == 0 || rows[0].len() == 0 {
        Err(PatternError::Empty)
    } else if !rectangular(rows) {
        Err(PatternError::RaggedRows)
    } else if rows.len() > 0xffff || rows[0].len() > 0xffff {
        Err(PatternError::TooLarge)
    } else {
        Ok(
            Board {
                width: rows[0].len(),
                height: rows.len(),
                cells: Seq::new(
                    rows[0].len() * rows.len(),
                    |i: int| rows[i / (rows[0].len() as int)][i % (rows[0].len() as int)],
                ),
            },
        )
    }
}

/// The board that `text` describes, or the reason it describes none.
pub open spec fn pattern_board(text: Seq<u8>) -> Result<Board, PatternError> {
    match pattern_rows(text) {
        Ok(rows) => rows_board(rows),
        Err(e) => Err(e),
    }
}

/// The byte sequences that a vector of byte vectors holds.
pub open spec fn pieces_view(pieces: Seq<Vec<u8>>) -> Seq<Seq<u8>> {
    Seq::new(pieces.len(), |i: int| pieces[i]@)
}

/// The rows of cells that a vector of rows holds.
pub open spec fn rows_view(rows: Seq<Vec<State>>) -> Seq<Seq<State>> {
    Seq::new(rows.len(), |i: int| rows[i]@)
}

/// What `parsed` holds, with the rows as sequences.
pub open spec fn parsed_view(parsed: Result<Vec<Vec<State>>, PatternError>) -> Result<
    Seq<Seq<State>>,
    PatternError,
> {
    match parsed {
        Ok(rows) => Ok(rows_view(rows@)),
        Err(e) => Err(e),
    }
}

/// The pieces put together again, with `sep` between every two.
pub open spec fn join(pieces: Seq<Seq<u8>>, sep: u8) -> Seq<u8>
    decreases pieces.len(),
{
    if pieces.len() == 0 {
        Seq::empty()
    } else if pieces.len() == 1 {
        pieces[0]
    } else {
        join(pieces.drop_last(), sep).push(sep) + pieces.last()
    }
}

/// Splitting loses nothing: there is at least one piece, no piece holds the
/// separator, and the pieces joined by the separator are the text again.
pub proof fn lemma_split_joins_back(text: Seq<u8>, sep: u8)
    ensures
        split(text, sep).len() >= 1,
        forall|i: int, j: int|
            0 <= i < split(text, sep).len() && 0 <= j < split(text, sep)[i].len() ==> split(
                text,
                sep,
            )[i][j] != sep,
        join(split(text, sep), sep) == text,
    decreases text.len(),
{
    if text.len() > 0 {
        let front = text.drop_last();
        let before = split(front, sep);
        let pieces = split(text, sep);
        lemma_split_joins_back(front, sep);
        if text.last() == sep {
            assert(pieces.drop_last() =~= before);
        } else if before.len() > 1 {
            assert(pieces.drop_last() =~= before.drop_last());
            assert(join(pieces, sep) =~= join(before, sep).push(text.last()));
        }
    }
}

/// Trimming takes away blank bytes only, and all of them at both ends:
/// `trim(text)` is the part of `text` between the returned positions, every
/// byte outside it is blank, and its first and last bytes, if it has any,
/// are not.
pub proof fn lemma_trim_is_core(text: Seq<u8>) -> (ends: (int, int))
    ensures
        0 <= ends.0 <= ends.1 <= text.len(),
        trim(text) == text.subrange(ends.0, ends.1),
        forall|i: int| 0 <= i < ends.0 || ends.1 <= i < text.len() ==> is_blank(#[trigger] text[i]),
        ends.0 < ends.1 ==> !is_blank(text[ends.0]) && !is_blank(text[ends.1 - 1]),
    decreases text.len(),
{
    if text.len() > 0 && is_blank(text.first()) {
        let inner = lemma_trim_is_core(text.drop_first());
        assert forall|i: int| 0 <= i < inner.0 + 1 || inner.1 + 1 <= i < text.len() implies is_blank(
            #[trigger] text[i],
        ) by {
            if i > 0 {
                assert(text[i] == text.drop_first()[i - 1]);
            }
        }
        (inner.0 + 1, inner.1 + 1)
    } else if text.len() > 0 && is_blank(text.last()) {
        let inner = lemma_trim_is_core(text.drop_last());
        assert forall|i: int| 0 <= i < inner.0 || inner.1 <= i < text.len() implies is_blank(
            #[trigger] text[i],
        ) by {
            if i < text.len() - 1 {
                assert(text[i] == text.drop_last()[i]);
            }
        }
        inner
    } else {
        (0, text.len() as int)
    }
}

/// How the pieces grow when one more byte is read.
proof fn lemma_split_push(text: Seq<u8>, byte: u8, sep: u8)
    ensures
        split(text.push(byte), sep) == if byte == sep {
            split(text, sep).push(Seq::empty())
        } else {
            split(text, sep).drop_last().push(split(text, sep).last().push(byte))
        },
{
    assert(text.push(byte).drop_last() =~= text);
}

/// Rows of unequal length never make a board.
pub proof fn lemma_unequal_rows_rejected(rows: Seq<Seq<State>>, i: int, j: int)
    requires
        0 <= i < rows.len(),
        0 <= j < rows.len(),
        rows[i].len() != rows[j].len(),
    ensures
        rows_board(rows) is Err,
{
}

/// A text whose rows are of unequal length never makes a board.
pub proof fn lemma_unequal_lines_rejected(text: Seq<u8>, i: int, j: int)
    requires
        pattern_rows(text) is Ok,
        0 <= i < pattern_rows(text).unwrap().len(),
        0 <= j < pattern_rows(text).unwrap().len(),
        pattern_rows(text).unwrap()[i].len() != pattern_rows(text).unwrap()[j].len(),
    ensures
        pattern_board(text) is Err,
{
    lemma_unequal_rows_rejected(pattern_rows(text).unwrap(), i, j);
}

/// A board made from rows is well formed and holds every cell of every row
/// in its place: nothing is cut off and nothing is added.
pub proof fn lemma_rows_board_keeps_cells(rows: Seq<Seq<State>>)
    requires
        rows_board(rows) is Ok,
    ensures
        rows_board(rows).unwrap().wf(),
        rows_board(rows).unwrap().height == rows.len(),
        forall|y: int|
            0 <= y < rows.len() ==> (#[trigger] rows[y]).len() == rows_board(rows).unwrap().width,
        forall|x: int, y: int|
            #![trigger rows[y][x]]
            rows_board(rows).unwrap().in_bounds(x, y) ==> rows_board(rows).unwrap().cells[rows_board(
                rows,
            ).unwrap().index_of(x, y)] == rows[y][x],
{
    let board = rows_board(rows).unwrap();
    assert forall|x: int, y: int| board.in_bounds(x, y) implies board.cells[board.index_of(x, y)]
        == rows[y][x] by {
        board.lemma_index_valid(x, y);
        lemma_fundamental_div_mod_converse(board.index_of(x, y), board.width as int, y, x);
    }
}

/// Whether `byte` is ASCII white space.
pub fn is_blank_byte(byte: u8) -> (blank: bool)
    ensures
        blank == is_blank(byte),
{
    byte == 0x20 || (0x09 <= byte && byte <= 0x0d)
}

/// Cuts `text` at every occurrence of `sep`.
pub fn split_bytes(text: &[u8], sep: u8) -> (pieces: Vec<Vec<u8>>)
    ensures
        pieces_view(pieces@) == split(text@, sep),
{
    let mut done: Vec<Vec<u8>> = Vec::new();
    let mut piece: Vec<u8> = Vec::new();
    let mut at: usize = 0;
    while at < text.len()
        invariant
            at <= text.len(),
            split(text@.take(at as int), sep) == pieces_view(done@).push(piece@),
        decreases text.len() - at,
    {
        let byte = text[at];
        proof {
            lemma_split_push(text@.take(at as int), byte, sep);
            assert(text@.take(at as int).push(byte) =~= text@.take(at as int + 1));
        }
        if byte == sep {
            done.push(piece);
            piece = Vec::new();
        } else {
            piece.push(byte);
        }
        at += 1;
    }
    done.push(piece);
    assert(text@.take(text.len() as int) =~= text@);
    done
}

/// The part of `line` that is left when the blank bytes at its two ends are
/// taken away.
pub fn trim_blank(line: &[u8]) -> (trimmed: &[u8])
    ensures
        trimmed@ == trim(line@),
{
    let mut start: usize = 0;
    assert(line@.subrange(0, line.len() as int) =~= line@);
    while start < line.len() && is_blank_byte(line[start])
        invariant
            start <= line.len(),
            trim(line@) == trim(line@.subrange(start as int, line.len() as int)),
        decreases line.len() - start,
    {
        assert(line@.subrange(start as int, line.len() as int).drop_first() =~= line@.subrange(
            start as int + 1,
            line.len() as int,
        ));
        start += 1;
    }
    let mut end: usize = line.len();
    while end > start && is_blank_byte(line[end - 1])
        invariant
            start <= end <= line.len(),
            start < line.len() ==> !is_blank(line[start as int]),
            trim(line@) == trim(line@.subrange(start as int, end as int)),
        decreases end - start,
    {
        assert(line@.subrange(start as int, end as int).drop_last() =~= line@.subrange(
            start as int,
            end as int - 1,
        ));
        end -= 1;
    }
    slice_subrange(line, start, end)
}

/// Reads one token: a single `0` or `1`.
pub fn parse_token(token: &[u8]) -> (state: Option<State>)
    ensures
        state == token_state(token@),
{
    if token.len() != 1 {
        None
    } else if token[0] == DEAD_MARKER {
        assert(token@ =~= seq![DEAD_MARKER]);
        Some(State::Dead)
    } else if token[0] == LIVE_MARKER {
        assert(token@ =~= seq![LIVE_MARKER]);
        Some(State::Live)
    } else {
        None
    }
}

/// Reads one line: its tokens, separated by commas, as a row of cells.
/// `None` when some token is not a marker.
pub fn parse_line(line: &[u8]) -> (row: Option<Vec<State>>)
    ensures
        match row {
            Some(cells) => line_states(line@) == Some(cells@),
            None => line_states(line@) is None,
        },
{
    let tokens = split_bytes(trim_blank(line), CELL_SEPARATOR);
    let ghost pieces = split(trim(line@), CELL_SEPARATOR);
    let mut cells: Vec<State> = Vec::new();
    let mut at: usize = 0;
    while at < tokens.len()
        invariant
            at <= tokens.len(),
            pieces == split(trim(line@), CELL_SEPARATOR),
            pieces_view(tokens@) == pieces,
            cells.len() == at,
            forall|j: int| 0 <= j < at ==> token_state(#[trigger] pieces[j]) == Some(cells[j]),
        decreases tokens.len() - at,
    {
        match parse_token(tokens[at].as_slice()) {
            Some(state) => {
                cells.push(state);
            },
            None => {
                assert(token_state(pieces[at as int]) is None);
                return None;
            },
        }
        at += 1;
    }
    Some(cells)
}

/// Reads a whole pattern: its lines as rows of cells.
///
/// Fails with `Empty` on a text of no bytes and with `InvalidToken` when any
/// token of any line is not a marker. The rows may still differ in length.
pub fn parse_pattern(text: &[u8]) -> (parsed: Result<Vec<Vec<State>>, PatternError>)
    ensures
        parsed_view(parsed) == pattern_rows(text@),
{
    if text.len() == 0 {
        return Err(PatternError::Empty);
    }
    let lines = split_bytes(text, ROW_SEPARATOR);
    let ghost pieces = split(text@, ROW_SEPARATOR);
    let mut rows: Vec<Vec<State>> = Vec::new();
    let mut at: usize = 0;
    while at < lines.len()
        invariant
            at <= lines.len(),
            text@.len() > 0,
            pieces == split(text@, ROW_SEPARATOR),
            pieces_view(lines@) == pieces,
            rows.len() == at,
            forall|i: int| 0 <= i < at ==> line_states(#[trigger] pieces[i]) == Some(rows[i]@),
        decreases lines.len() - at,
    {
        match parse_line(lines[at].as_slice()) {
            Some(row) => {
                rows.push(row);
            },
            None => {
                assert(line_states(pieces[at as int]) is None);
                return Err(PatternError::InvalidToken);
            },
        }
        at += 1;
    }
    assert(rows_view(rows@) =~= lines_rows(pieces).unwrap());
    Ok(rows)
}

} // verus!
