//! The 8x8 grid of visit numbers.
//!
//! A board is modelled as a sequence of 64 bytes in row-major order: the cell
//! in column `col` of row `row` stands at index `row * 8 + col`. A cell that
//! holds 0 has not been visited; any other value is the number of the visit.

use vstd::prelude::*;
use vstd::string::StringExecFns;

verus! {

/// Number of columns, and of rows, of the board.
pub const SIZE: usize = 8;

/// Whether `(col, row)` names a square of the board.
pub open spec fn in_range(col: int, row: int) -> bool {
    0 <= col < 8 && 0 <= row < 8
}

/// Position of the square `(col, row)` in the row-major sequence of cells.
pub open spec fn cell_index(col: int, row: int) -> int {
    row * 8 + col
}

/// The cells of a board on which no square has been visited.
pub open spec fn blank() -> Seq<u8> {
    Seq::new(64, |i: int| 0u8)
}

/// What reading the square `(col, row)` yields: its value, or nothing for a
/// square off the board.
pub open spec fn read(cells: Seq<u8>, col: int, row: int) -> Option<u8> {
    if in_range(col, row) {
        Some(cells[cell_index(col, row)])
    } else {
        None
    }
}

/// The cells after `value` was written to the square `(col, row)`. A write
/// off the board changes nothing.
pub open spec fn written(cells: Seq<u8>, col: int, row: int, value: u8) -> Seq<u8> {
    if in_range(col, row) {
        cells.update(cell_index(col, row), value)
    } else {
        cells
    }
}

/// The message of the error that a write off the board reports.
pub const OUT_OF_RANGE: &'static str = "Индекс вне диапазона";

/// An 8x8 grid of visit numbers, all of them 0 on a new board.
#[derive(Debug, PartialEq, Eq)]
pub struct Board {
    cells: [[u8; 8]; 8],
}

impl View for Board {
    type V = Seq<u8>;

    /// The 64 cells in row-major order.
    closed spec fn view(&self) -> Seq<u8> {
        Seq::new(64, |i: int| self.cells[i / 8][i % 8])
    }
}

impl Board {
    /// Every board has exactly 64 cells.
    pub proof fn lemma_cell_count(self)
        ensures
            self@.len() == 64,
    {
    }

    /// A board with every square unvisited.
    pub fn new() -> (board: Board)
        ensures
            board@ == blank(),
    {
        Board { cells: [[0u8; 8]; 8] }
    }

    /// Reads the square `(col, row)`; `None` for a square off the board.
    pub fn get(&self, col: usize, row: usize) -> (value: Option<u8>)
        ensures
            value == read(self@, col as int, row as int),
            !in_range(col as int, row as int) ==> value is None,
    {
        if col >= SIZE || row >= SIZE {
            return None;
        }
        Some(self.cells[row][col])
    }

    /// Writes `value` to the square `(col, row)`. For a square off the board
    /// the board stays as it was and the error says so.
    pub fn set(&mut self, col: usize, row: usize, value: u8) -> (result: Result<(), String>)
        ensures
            final(self)@ == written(old(self)@, col as int, row as int, value),
            result is Ok <==> in_range(col as int, row as int),
            result matches Err(message) ==> message@ == OUT_OF_RANGE@,
            !in_range(col as int, row as int) ==> final(self)@ == old(self)@,
    {
        if col > (SIZE - 1) || row > (SIZE - 1) {
            return Err(String::from_str(OUT_OF_RANGE));
        }
        self.cells[row][col] = value;
        Ok(())
    }
}

/// A value written to a square of the board is the value read back from it.
pub proof fn lemma_read_after_write(cells: Seq<u8>, col: int, row: int, value: u8)
    requires
        cells.len() == 64,
        in_range(col, row),
    ensures
        read(written(cells, col, row, value), col, row) == Some(value),
{
}

/// A write leaves every square but the written one as it was.
pub proof fn lemma_write_keeps_other_squares(
    cells: Seq<u8>,
    col: int,
    row: int,
    value: u8,
    other_col: int,
    other_row: int,
)
    requires
        cells.len() == 64,
        (other_col, other_row) != (col, row),
    ensures
        read(written(cells, col, row, value), other_col, other_row) == read(
            cells,
            other_col,
            other_row,
        ),
{
}

} // verus!
