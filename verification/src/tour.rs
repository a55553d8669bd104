//! The greedy knight's walk.
//!
//! From a square the knight looks at its eight moves in one fixed order and
//! takes the first that lands on an unvisited square of the board. The walk
//! numbers the squares as it goes and never takes a move back.

use vstd::prelude::*;
use crate::board::{Board, SIZE, cell_index, in_range, written};

verus! {

/// How a walk ended.
#[derive(Clone, Copy, Debug, PartialEq, Eq, Structural)]
pub enum Solved {
    /// The visit number went past 64.
    Yes,
    /// The knight stood on a square with no unvisited square in reach.
    No,
}

/// The `k`-th knight move, as a change of column and of row, in the order in
/// which the moves are tried.
pub open spec fn knight_offset(k: int) -> (int, int) {
    if k == 0 {
        (-2, -1)
    } else if k == 1 {
        (-1, -2)
    } else if k == 2 {
        (-2, 1)
    } else if k == 3 {
        (-1, 2)
    } else if k == 4 {
        (1, -2)
    } else if k == 5 {
        (2, -1)
    } else if k == 6 {
        (2, 1)
    } else {
        (1, 2)
    }
}

/// The square that the `k`-th knight move reaches from `(col, row)`.
pub open spec fn knight_target(col: int, row: int, k: int) -> (int, int) {
    (col + knight_offset(k).0, row + knight_offset(k).1)
}

/// Whether `to` is one knight move away from `from`.
pub open spec fn is_knight_move(from: (int, int), to: (int, int)) -> bool {
    let dc = to.0 - from.0;
    let dr = to.1 - from.1;
    ((dc == 1 || dc == -1) && (dr == 2 || dr == -2)) || ((dc == 2 || dc == -2) && (dr == 1 || dr
        == -1))
}

/// Whether `(col, row)` is a square of the board that has not been visited.
pub open spec fn is_open(cells: Seq<u8>, col: int, row: int) -> bool {
    in_range(col, row) && cells[cell_index(col, row)] == 0
}

/// Whether the `k`-th knight move from `(col, row)` lands on an unvisited
/// square of the board.
pub open spec fn target_is_open(cells: Seq<u8>, col: int, row: int, k: int) -> bool {
    is_open(cells, knight_target(col, row, k).0, knight_target(col, row, k).1)
}

/// The target of the first move, among the moves `k`, `k + 1`, ... `7`, that
/// lands on an unvisited square of the board.
pub open spec fn first_open_from(cells: Seq<u8>, col: int, row: int, k: int) -> Option<(int, int)>
    decreases 8 - k,
{
    if k < 0 || k >= 8 {
        None
    } else if target_is_open(cells, col, row, k) {
        Some(knight_target(col, row, k))
    } else {
        first_open_from(cells, col, row, k + 1)
    }
}

/// The square that the knight moves to from `(col, row)`: the target of the
/// first of the eight moves that lands on an unvisited square of the board,
/// or nothing when no move does.
pub open spec fn next_square(cells: Seq<u8>, col: int, row: int) -> Option<(int, int)> {
    first_open_from(cells, col, row, 0)
}

/// Whether the square `(col, row)` of `board` is on the board and unvisited.
fn unvisited(board: &Board, col: usize, row: usize) -> (open: bool)
    ensures
        open == is_open(board@, col as int, row as int),
{
    match board.get(col, row) {
        Some(value) => value == 0,
        None => false,
    }
}

/// Picks the square to visit after `(col, row)`: the first knight move, in
/// the fixed order, whose target is on the board and holds 0. `None` when
/// every target is off the board or visited.
pub fn next(col: usize, row: usize, board: &Board) -> (target: Option<(usize, usize)>)
    ensures
        match target {
            Some((c, r)) => next_square(board@, col as int, row as int) == Some(
                (c as int, r as int),
            ),
            None => next_square(board@, col as int, row as int) is None,
        },
        target matches Some((c, r)) ==> in_range(c as int, r as int) && board@[cell_index(
            c as int,
            r as int,
        )] == 0,
{
    proof {
        reveal_with_fuel(first_open_from, 9);
    }
    if col >= 2 && row >= 1 && unvisited(board, col - 2, row - 1) {
        return Some((col - 2, row - 1));
    }
    if col >= 1 && row >= 2 && unvisited(board, col - 1, row - 2) {
        return Some((col - 1, row - 2));
    }
    if col >= 2 && row < SIZE - 1 && unvisited(board, col - 2, row + 1) {
        return Some((col - 2, row + 1));
    }
    if col >= 1 && row < SIZE - 2 && unvisited(board, col - 1, row + 2) {
        return Some((col - 1, row + 2));
    }
    if col < SIZE - 1 && row >= 2 && unvisited(board, col + 1, row - 2) {
        return Some((col + 1, row - 2));
    }
    if col < SIZE - 2 && row >= 1 && unvisited(board, col + 2, row - 1) {
        return Some((col + 2, row - 1));
    }
    if col < SIZE - 2 && row < SIZE - 1 && unvisited(board, col + 2, row + 1) {
        return Some((col + 2, row + 1));
    }
    if col < SIZE - 1 && row < SIZE - 2 && unvisited(board, col + 1, row + 2) {
        return Some((col + 1, row + 2));
    }
    None
}

/// The next square, where there is one, is a knight move away, on the board
/// and unvisited.
pub proof fn lemma_next_square_is_open(cells: Seq<u8>, col: int, row: int)
    ensures
        next_square(cells, col, row) matches Some(target) ==> is_open(cells, target.0, target.1)
            && is_knight_move((col, row), target),
{
    reveal_with_fuel(first_open_from, 9);
}

/// The next square is the target of the first move that lands on an
/// unvisited square of the board: no move before it in the order does. There
/// is no next square exactly when none of the eight moves does.
pub proof fn lemma_next_square_is_first(cells: Seq<u8>, col: int, row: int)
    ensures
        match next_square(cells, col, row) {
            Some(target) => exists|k: int|
                0 <= k < 8 && #[trigger] target_is_open(cells, col, row, k) && knight_target(
                    col,
                    row,
                    k,
                ) == target && forall|j: int| 0 <= j < k ==> !target_is_open(cells, col, row, j),
            None => forall|k: int| 0 <= k < 8 ==> !target_is_open(cells, col, row, k),
        },
{
    reveal_with_fuel(first_open_from, 9);
}

/// Where exactly one of the eight moves lands on an unvisited square of the
/// board, that square is the next square, whichever place the move has in the
/// order.
pub proof fn lemma_sole_open_target(cells: Seq<u8>, col: int, row: int, k: int)
    requires
        0 <= k < 8,
        target_is_open(cells, col, row, k),
        forall|j: int| 0 <= j < 8 && j != k ==> !target_is_open(cells, col, row, j),
    ensures
        next_square(cells, col, row) == Some(knight_target(col, row, k)),
{
    reveal_with_fuel(first_open_from, 9);
}

/// The walk that starts on `(col, row)` with the visit number `count`: how it
/// ends, and the cells it leaves.
///
/// While the number is at most 64 the knight's square gets the number and the
/// knight moves on to the next square with the number after it. A number past
/// 64 ends the walk as solved. A square without a next square ends it as not
/// solved, and that square alone is set back to 0.
pub open spec fn walk(cells: Seq<u8>, col: int, row: int, count: u8) -> (Solved, Seq<u8>)
    decreases 65 - count,
{
    if count > 64 {
        (Solved::Yes, cells)
    } else {
        let marked = written(cells, col, row, count);
        match next_square(marked, col, row) {
            Some((c, r)) => walk(marked, c, r, (count + 1) as u8),
            None => (Solved::No, written(marked, col, row, 0)),
        }
    }
}

/// Walks the knight over `board` from `(col, row)`, numbering the squares
/// from `count` on, until the number passes 64 or the knight is stuck.
pub fn solve(col: usize, row: usize, count: u8, board: &mut Board) -> (outcome: Solved)
    ensures
        outcome == walk(old(board)@, col as int, row as int, count).0,
        final(board)@ == walk(old(board)@, col as int, row as int, count).1,
{
    let mut at_col: usize = col;
    let mut at_row: usize = row;
    let mut number: u8 = count;
    loop
        invariant
            walk(board@, at_col as int, at_row as int, number) == walk(
                old(board)@,
                col as int,
                row as int,
                count,
            ),
        decreases 65 - number,
    {
        if number > (SIZE * SIZE) as u8 {
            return Solved::Yes;
        }
        let _ = board.set(at_col, at_row, number);
        match next(at_col, at_row, board) {
            Some((c, r)) => {
                at_col = c;
                at_row = r;
                number = number + 1;
            },
            None => {
                let _ = board.set(at_col, at_row, 0);
                return Solved::No;
            },
        }
    }
}

} // verus!
