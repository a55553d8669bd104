//! The text form of a board.
//!
//! A line of column letters and a line of dashes come first. Below them stand
//! the eight ranks, rank 8 on top: the rank's number, a bar, and the eight
//! cells of the row, each right-aligned in three characters.

use vstd::prelude::*;
use vstd::string::StringExecFns;
use crate::board::{Board, SIZE, cell_index};
use crate::text::{decimal, padded, push_decimal, push_padded};

verus! {

/// The two lines above the ranks.
pub const HEADING: &'static str = "    A  B  C  D  E  F  G  H\n    ----------------------\n";

/// The text of the first `upto` cells of the row `row`.
pub open spec fn row_cells(cells: Seq<u8>, row: int, upto: int) -> Seq<char>
    decreases upto,
{
    if upto <= 0 {
        Seq::empty()
    } else {
        row_cells(cells, row, upto - 1) + padded(cells[cell_index(upto - 1, row)])
    }
}

/// The line of the row `row`: the rank `row + 1`, a bar, the cells, and the
/// end of the line.
pub open spec fn rank_line(cells: Seq<u8>, row: int) -> Seq<char> {
    decimal((row + 1) as nat).push('|') + row_cells(cells, row, 8).push('\n')
}

/// The lines of the `count` topmost ranks, from rank 8 down.
pub open spec fn rank_lines(cells: Seq<u8>, count: int) -> Seq<char>
    decreases count,
{
    if count <= 0 {
        Seq::empty()
    } else {
        rank_lines(cells, count - 1) + rank_line(cells, 8 - count)
    }
}

/// The text form of a board with the cells `cells`.
pub open spec fn rendered(cells: Seq<u8>) -> Seq<char> {
    HEADING@ + rank_lines(cells, 8)
}

impl Board {
    /// The board as text, ready to print.
    pub fn render(&self) -> (text: String)
        ensures
            text@ == rendered(self@),
    {
        let mut text = String::from_str(HEADING);
        let mut done: usize = 0;
        while done < SIZE
            invariant
                done <= 8,
                text@ == HEADING@ + rank_lines(self@, done as int),
            decreases 8 - done,
        {
            let row: usize = SIZE - 1 - done;
            let ghost above = text@;
            push_decimal(&mut text, row + 1);
            text.push('|');
            let mut col: usize = 0;
            while col < SIZE
                invariant
                    col <= 8,
                    row < 8,
                    text@ == above + decimal((row + 1) as nat).push('|') + row_cells(
                        self@,
                        row as int,
                        col as int,
                    ),
                decreases 8 - col,
            {
                let value = self.get(col, row).unwrap();
                push_padded(&mut text, value);
                col = col + 1;
            }
            text.push('\n');
            done = done + 1;
            assert(text@ == above + rank_line(self@, row as int));
        }
        text
    }
}

} // verus!
