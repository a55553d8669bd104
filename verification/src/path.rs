//! The path of a walk, and what holds of every walk.
//!
//! The path lists the squares that a walk numbers. The facts below tie it to
//! the cells that the walk leaves and to the way the walk ends.

use vstd::prelude::*;
use crate::board::{cell_index, in_range, written};
use crate::tour::{Solved, is_knight_move, lemma_next_square_is_open, next_square, walk};

verus! {

/// The squares that the walk from `(col, row)` numbers, in the order of the
/// visits: the first holds `count`, the next `count + 1`, and so on.
pub open spec fn path(cells: Seq<u8>, col: int, row: int, count: u8) -> Seq<(int, int)>
    decreases 65 - count,
{
    if count > 64 {
        Seq::empty()
    } else {
        let marked = written(cells, col, row, count);
        match next_square(marked, col, row) {
            Some((c, r)) => seq![(col, row)] + path(marked, c, r, (count + 1) as u8),
            None => seq![(col, row)],
        }
    }
}

/// Position of a square in the row-major sequence of cells.
pub open spec fn square_index(square: (int, int)) -> int {
    cell_index(square.0, square.1)
}

/// Whether one of `squares` stands at position `index` of the cells.
pub open spec fn visits(squares: Seq<(int, int)>, index: int) -> bool {
    exists|i: int| 0 <= i < squares.len() && square_index(#[trigger] squares[i]) == index
}

/// The facts about a walk that one induction over its steps gives together.
proof fn lemma_walk_trace(cells: Seq<u8>, col: int, row: int, count: u8)
    requires
        cells.len() == 64,
        in_range(col, row),
        1 <= count <= 64,
    ensures
        ({
            let squares = path(cells, col, row, count);
            let (outcome, left) = walk(cells, col, row, count);
            &&& left.len() == 64
            &&& 1 <= squares.len() <= 65 - count
            &&& squares[0] == (col, row)
            &&& forall|i: int|
                0 <= i < squares.len() ==> in_range((#[trigger] squares[i]).0, squares[i].1)
            &&& forall|i: int|
                1 <= i < squares.len() ==> cells[square_index(#[trigger] squares[i])] == 0
            &&& forall|i: int, j: int|
                0 <= i < j < squares.len() ==> #[trigger] squares[i] != #[trigger] squares[j]
            &&& forall|i: int|
                0 <= i < squares.len() - 1 ==> is_knight_move(
                    #[trigger] squares[i],
                    squares[i + 1],
                )
            &&& forall|i: int|
                0 <= i < squares.len() - 1 ==> left[square_index(#[trigger] squares[i])] == count
                    + i
            &&& outcome == Solved::Yes ==> count + squares.len() == 65 && left[square_index(
                squares.last(),
            )] == 64
            &&& outcome == Solved::No ==> left[square_index(squares.last())] == 0
            &&& forall|index: int|
                0 <= index < 64 && !visits(squares, index) ==> #[trigger] left[index]
                    == cells[index]
        }),
    decreases 65 - count,
{
    let marked = written(cells, col, row, count);
    let squares = path(cells, col, row, count);
    let left = walk(cells, col, row, count).1;
    lemma_next_square_is_open(marked, col, row);
    assert(squares[0] == (col, row));
    match next_square(marked, col, row) {
        Some((c, r)) => {
            if count < 64 {
                // The walk goes on from `(c, r)`: its path is the starting
                // square followed by the path of the walk from there.
                let next_count = (count + 1) as u8;
                lemma_walk_trace(marked, c, r, next_count);
                let rest = path(marked, c, r, next_count);
                assert(squares == seq![(col, row)] + rest);
                // The rest lies on squares that `marked` holds as unvisited,
                // so it never comes back to the starting square.
                assert forall|i: int| 0 <= i < rest.len() implies square_index(
                    #[trigger] rest[i],
                ) != cell_index(col, row) by {
                    assert(marked[square_index(rest[i])] == 0);
                }
                assert forall|i: int| 1 <= i < squares.len() implies cells[square_index(
                    #[trigger] squares[i],
                )] == 0 by {
                    assert(squares[i] == rest[i - 1]);
                }
                assert forall|i: int, j: int|
                    0 <= i < j < squares.len() implies #[trigger] squares[i]
                    != #[trigger] squares[j] by {
                    assert(squares[j] == rest[j - 1]);
                    if i > 0 {
                        assert(squares[i] == rest[i - 1]);
                    }
                }
                assert forall|i: int| 0 <= i < squares.len() - 1 implies is_knight_move(
                    #[trigger] squares[i],
                    squares[i + 1],
                ) by {
                    assert(squares[i + 1] == rest[i]);
                    if i > 0 {
                        assert(squares[i] == rest[i - 1]);
                    }
                }
                assert forall|i: int| 0 <= i < squares.len() - 1 implies left[square_index(
                    #[trigger] squares[i],
                )] == count + i by {
                    if i > 0 {
                        assert(squares[i] == rest[i - 1]);
                    }
                }
                assert(squares.last() == rest.last());
                assert forall|index: int|
                    0 <= index < 64 && !visits(squares, index) implies #[trigger] left[index]
                    == cells[index] by {
                    if visits(rest, index) {
                        let i = choose|i: int|
                            0 <= i < rest.len() && square_index(#[trigger] rest[i]) == index;
                        assert(squares[i + 1] == rest[i]);
                    }
                }
            } else {
                // The starting square took the number 64: the walk ends
                // solved before it numbers `(c, r)`.
                assert(path(marked, c, r, 65u8) =~= Seq::empty());
                assert(walk(marked, c, r, 65u8) == (Solved::Yes, marked));
            }
        },
        None => {},
    }
}

/// The squares of a walk form a knight's path over unvisited squares: the
/// path starts on the starting square, stays on the board, never comes back
/// to a square, goes from each square to the next by one knight move, and
/// every square after the first held 0 before the walk.
pub proof fn lemma_path_is_knights_path(cells: Seq<u8>, col: int, row: int, count: u8)
    requires
        cells.len() == 64,
        in_range(col, row),
        1 <= count <= 64,
    ensures
        ({
            let squares = path(cells, col, row, count);
            &&& 1 <= squares.len() <= 65 - count
            &&& squares[0] == (col, row)
            &&& forall|i: int|
                0 <= i < squares.len() ==> in_range((#[trigger] squares[i]).0, squares[i].1)
            &&& forall|i: int, j: int|
                0 <= i < j < squares.len() ==> #[trigger] squares[i] != #[trigger] squares[j]
            &&& forall|i: int|
                0 <= i < squares.len() - 1 ==> is_knight_move(
                    #[trigger] squares[i],
                    squares[i + 1],
                )
            &&& forall|i: int|
                1 <= i < squares.len() ==> cells[square_index(#[trigger] squares[i])] == 0
        }),
{
    lemma_walk_trace(cells, col, row, count);
}

/// A walk that ends stuck sets back exactly the square it got stuck on: that
/// square, the last of the path, reads 0, each square visited before it keeps
/// its visit number, which is not 0, and the squares off the path are as they
/// were.
pub proof fn lemma_stuck_walk_clears_last_square(cells: Seq<u8>, col: int, row: int, count: u8)
    requires
        cells.len() == 64,
        in_range(col, row),
        1 <= count,
        walk(cells, col, row, count).0 == Solved::No,
    ensures
        ({
            let squares = path(cells, col, row, count);
            let left = walk(cells, col, row, count).1;
            &&& squares.len() >= 1
            &&& left[square_index(squares.last())] == 0
            &&& forall|i: int|
                0 <= i < squares.len() - 1 ==> left[square_index(#[trigger] squares[i])] == count
                    + i
            &&& forall|index: int|
                0 <= index < 64 && !visits(squares, index) ==> #[trigger] left[index]
                    == cells[index]
        }),
{
    lemma_walk_trace(cells, col, row, count);
}

/// A walk ends solved exactly when it was never stuck: it has numbered a
/// square with each of the numbers from `count` to 64, and the last square of
/// its path still holds 64. Every square of the path then keeps its visit
/// number.
pub proof fn lemma_solved_walk_is_complete(cells: Seq<u8>, col: int, row: int, count: u8)
    requires
        cells.len() == 64,
        in_range(col, row),
        1 <= count <= 64,
    ensures
        ({
            let squares = path(cells, col, row, count);
            let (outcome, left) = walk(cells, col, row, count);
            &&& outcome == Solved::Yes <==> squares.len() == 65 - count && left[square_index(
                squares.last(),
            )] == 64
            &&& outcome == Solved::Yes ==> forall|i: int|
                0 <= i < squares.len() ==> left[square_index(#[trigger] squares[i])] == count + i
        }),
{
    lemma_walk_trace(cells, col, row, count);
}

/// How many of the first `upto` cells are unvisited.
pub open spec fn unvisited_count(cells: Seq<u8>, upto: int) -> int
    decreases upto,
{
    if upto <= 0 {
        0
    } else {
        unvisited_count(cells, upto - 1) + if cells[upto - 1] == 0 {
            1int
        } else {
            0int
        }
    }
}

/// A visited cell among the first `upto` leaves at most `upto - 1` unvisited.
proof fn lemma_visited_cell_counts_out(cells: Seq<u8>, index: int, upto: int)
    requires
        0 <= index < upto,
        cells[index] != 0,
    ensures
        unvisited_count(cells, upto) <= upto - 1,
    decreases upto,
{
    if index < upto - 1 {
        lemma_visited_cell_counts_out(cells, index, upto - 1);
    } else {
        lemma_unvisited_count_bound(cells, upto - 1);
    }
}

/// No more cells are unvisited than there are cells.
proof fn lemma_unvisited_count_bound(cells: Seq<u8>, upto: int)
    requires
        0 <= upto,
    ensures
        0 <= unvisited_count(cells, upto) <= upto,
    decreases upto,
{
    if upto > 0 {
        lemma_unvisited_count_bound(cells, upto - 1);
    }
}

/// An unvisited cell among the first `upto` is counted.
proof fn lemma_unvisited_cell_counts(cells: Seq<u8>, index: int, upto: int)
    requires
        0 <= index < upto,
        cells[index] == 0,
    ensures
        unvisited_count(cells, upto) >= 1,
    decreases upto,
{
    if index < upto - 1 {
        lemma_unvisited_cell_counts(cells, index, upto - 1);
    } else {
        lemma_unvisited_count_bound(cells, upto - 1);
    }
}

/// Numbering an unvisited cell takes one from the count.
proof fn lemma_visit_takes_one(cells: Seq<u8>, index: int, value: u8, upto: int)
    requires
        0 <= index < cells.len(),
        0 <= upto <= cells.len(),
        cells[index] == 0,
        value != 0,
    ensures
        unvisited_count(cells.update(index, value), upto) == unvisited_count(cells, upto) - if index
            < upto {
            1int
        } else {
            0int
        },
    decreases upto,
{
    if upto > 0 {
        lemma_visit_takes_one(cells, index, value, upto - 1);
    }
}

/// A walk needs room: to end solved it has to find, after its starting
/// square, an unvisited square for each number up to 65. Where the board,
/// with the starting square numbered, has at most `64 - count` unvisited
/// squares, the walk ends stuck.
pub proof fn lemma_walk_needs_room(cells: Seq<u8>, col: int, row: int, count: u8)
    requires
        cells.len() == 64,
        in_range(col, row),
        1 <= count <= 64,
        unvisited_count(written(cells, col, row, count), 64) <= 64 - count,
    ensures
        walk(cells, col, row, count).0 == Solved::No,
    decreases 65 - count,
{
    let marked = written(cells, col, row, count);
    lemma_next_square_is_open(marked, col, row);
    match next_square(marked, col, row) {
        Some((c, r)) => {
            lemma_unvisited_cell_counts(marked, cell_index(c, r), 64);
            let next_count = (count + 1) as u8;
            lemma_visit_takes_one(marked, cell_index(c, r), next_count, 64);
            lemma_walk_needs_room(marked, c, r, next_count);
        },
        None => {},
    }
}

/// A walk that starts with the number 1 never ends solved, whatever the
/// board and the starting square: the 64 squares take the numbers 1 to 64,
/// and no unvisited square is left for the knight to move to after the last.
pub proof fn lemma_walk_from_one_ends_stuck(cells: Seq<u8>, col: int, row: int)
    requires
        cells.len() == 64,
        in_range(col, row),
    ensures
        walk(cells, col, row, 1).0 == Solved::No,
{
    lemma_visited_cell_counts_out(written(cells, col, row, 1), cell_index(col, row), 64);
    lemma_walk_needs_room(cells, col, row, 1);
}

} // verus!
