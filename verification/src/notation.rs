//! Squares by letter and digit.
//!
//! The columns 0 to 7 carry the letters A to H and the rows 0 to 7 the digits
//! 1 to 8, so that the square in column 0 of row 7 is A8. Both conversions
//! accept every input: what lies past the board is taken to the edge.

use vstd::prelude::*;
use vstd::std_specs::convert::FromSpecImpl;
use crate::board::{SIZE, in_range};
use crate::text::{decimal, push_decimal};

verus! {

/// The letters of the columns, from column 0 on.
pub const LETTERS: [char; 8] = ['A', 'B', 'C', 'D', 'E', 'F', 'G', 'H'];

/// The name of a square: the letter of its column and the digit of its row.
#[derive(Clone, Copy, Debug, PartialEq, Eq, Structural)]
pub struct BoardNotation {
    pub letter: char,
    pub digit: usize,
}

/// The letter of the column `col`; H for a column past the last.
pub open spec fn column_letter(col: int) -> char {
    if col >= 8 {
        LETTERS[7]
    } else {
        LETTERS[col]
    }
}

/// The digit of the row `row`; 8 for a row past the last.
pub open spec fn row_digit(row: int) -> int {
    if row >= 8 {
        8
    } else {
        row + 1
    }
}

/// The upper-case form of an ASCII letter; any other character is itself.
pub open spec fn upper_case(letter: char) -> char {
    if 'a' <= letter <= 'z' {
        (letter as int - 32) as char
    } else {
        letter
    }
}

/// The column that `letter` names, whether in upper or in lower case; the
/// last column for a character that names none.
pub open spec fn letter_column(letter: char) -> int {
    if 'A' <= upper_case(letter) <= 'H' {
        upper_case(letter) as int - 'A' as int
    } else {
        7
    }
}

/// The row that `digit` names; the first row for 0 and the last row for a
/// digit past 8.
pub open spec fn digit_row(digit: int) -> int {
    if digit >= 8 {
        7
    } else if digit <= 1 {
        0
    } else {
        digit - 1
    }
}

/// The name of the square `(col, row)`.
pub open spec fn notation_of(col: usize, row: usize) -> BoardNotation {
    BoardNotation { letter: column_letter(col as int), digit: row_digit(row as int) as usize }
}

/// The square that `notation` names.
pub open spec fn square_of(notation: BoardNotation) -> (usize, usize) {
    (letter_column(notation.letter) as usize, digit_row(notation.digit as int) as usize)
}

/// The text of a name: the letter, then the digit in decimal.
pub open spec fn notation_text(notation: BoardNotation) -> Seq<char> {
    seq![notation.letter] + decimal(notation.digit as nat)
}

impl From<(usize, usize)> for BoardNotation {
    /// Names the square `(value.0, value.1)`.
    fn from(value: (usize, usize)) -> (notation: BoardNotation)
        ensures
            notation == notation_of(value.0, value.1),
            value.0 >= 8 ==> notation.letter == 'H',
            value.1 >= 8 ==> notation.digit == 8,
    {
        let letter = {
            if value.0 >= SIZE {
                LETTERS[SIZE - 1]
            } else {
                LETTERS[value.0]
            }
        };
        let digit = {
            if value.1 >= SIZE {
                SIZE
            } else {
                value.1 + 1
            }
        };
        BoardNotation { letter, digit }
    }
}

impl FromSpecImpl<(usize, usize)> for BoardNotation {
    open spec fn obeys_from_spec() -> bool {
        true
    }

    open spec fn from_spec(value: (usize, usize)) -> BoardNotation {
        notation_of(value.0, value.1)
    }
}

impl From<BoardNotation> for (usize, usize) {
    /// Finds the square `(column, row)` that `value` names.
    fn from(value: BoardNotation) -> (square: (usize, usize))
        ensures
            square == square_of(value),
            in_range(square.0 as int, square.1 as int),
    {
        let col = {
            let letter = value.letter;
            let upper = if 'a' <= letter && letter <= 'z' {
                letter as u32 - 32
            } else {
                letter as u32
            };
            if 'A' as u32 <= upper && upper <= 'H' as u32 {
                (upper - 'A' as u32) as usize
            } else {
                SIZE - 1
            }
        };
        let row = {
            if value.digit >= SIZE {
                SIZE - 1
            } else if value.digit <= 1 {
                0
            } else {
                value.digit - 1
            }
        };
        (col, row)
    }
}

impl FromSpecImpl<BoardNotation> for (usize, usize) {
    open spec fn obeys_from_spec() -> bool {
        true
    }

    open spec fn from_spec(value: BoardNotation) -> (usize, usize) {
        square_of(value)
    }
}

impl BoardNotation {
    /// The name as text, such as `A8`.
    pub fn render(&self) -> (text: String)
        ensures
            text@ == notation_text(*self),
    {
        let mut text = String::new();
        text.push(self.letter);
        push_decimal(&mut text, self.digit);
        text
    }
}

/// Naming a square of the board and reading the name back gives the same
/// square.
pub proof fn lemma_notation_round_trip(col: usize, row: usize)
    requires
        in_range(col as int, row as int),
    ensures
        square_of(notation_of(col, row)) == (col, row),
{
}

} // verus!
