//! Counting pieces, and deciding who has won.

use vstd::prelude::*;
use crate::board::{on_board, starting_grid, Board, Cell, Color, Grid};
use crate::rules::{after_move, captured, legal, lemma_captured_was_rival};

verus! {

/// How many of the first `n` squares of `row` hold `cell`.
pub open spec fn count_in_row(row: Seq<Cell>, cell: Cell, n: int) -> nat
    decreases n,
{
    if n <= 0 {
        0
    } else {
        count_in_row(row, cell, n - 1) + if row[n - 1] == cell {
            1nat
        } else {
            0nat
        }
    }
}

/// How many squares of the first `n` rows of `grid` hold `cell`.
pub open spec fn count_in_rows(grid: Grid, cell: Cell, n: int) -> nat
    decreases n,
{
    if n <= 0 {
        0
    } else {
        count_in_rows(grid, cell, n - 1) + count_in_row(grid[n - 1], cell, 8)
    }
}

/// How many squares of the board hold `cell`.
pub open spec fn count(grid: Grid, cell: Cell) -> nat {
    count_in_rows(grid, cell, 8)
}

/// How many squares of the board hold a piece.
pub open spec fn occupied(grid: Grid) -> nat {
    count(grid, Cell::Player1) + count(grid, Cell::Player2)
}

/// Each of the first `n` squares of a row is counted under exactly one state.
proof fn lemma_row_total(row: Seq<Cell>, n: int)
    requires
        n >= 0,
    ensures
        count_in_row(row, Cell::Empty, n) + count_in_row(row, Cell::Player1, n) + count_in_row(
            row,
            Cell::Player2,
            n,
        ) == n,
    decreases n,
{
    if n > 0 {
        lemma_row_total(row, n - 1);
    }
}

proof fn lemma_rows_total(grid: Grid, n: int)
    requires
        n >= 0,
    ensures
        count_in_rows(grid, Cell::Empty, n) + count_in_rows(grid, Cell::Player1, n)
            + count_in_rows(grid, Cell::Player2, n) == 8 * n,
    decreases n,
{
    if n > 0 {
        lemma_rows_total(grid, n - 1);
        lemma_row_total(grid[n - 1], 8);
    }
}

/// Every square is empty or holds a piece of one side: the three counts add
/// up to the sixty-four squares.
pub proof fn lemma_count_total(grid: Grid)
    ensures
        count(grid, Cell::Empty) + occupied(grid) == 64,
        count(grid, Cell::Empty) <= 64,
        count(grid, Cell::Player1) <= 64,
        count(grid, Cell::Player2) <= 64,
{
    lemma_rows_total(grid, 8);
}

/// Two rows that hold `cell` on the same squares among the first `n` count alike.
proof fn lemma_row_same(a: Seq<Cell>, b: Seq<Cell>, cell: Cell, n: int)
    requires
        forall|c: int| 0 <= c < n ==> (#[trigger] a[c] == cell <==> b[c] == cell),
    ensures
        count_in_row(a, cell, n) == count_in_row(b, cell, n),
    decreases n,
{
    if n > 0 {
        lemma_row_same(a, b, cell, n - 1);
    }
}

/// A row that holds `cell` where another does, and on square `col` besides,
/// counts one more.
proof fn lemma_row_one_more(a: Seq<Cell>, b: Seq<Cell>, cell: Cell, col: int, n: int)
    requires
        0 <= col < n,
        a[col] == cell,
        b[col] != cell,
        forall|c: int| 0 <= c < n && c != col ==> (#[trigger] a[c] == cell <==> b[c] == cell),
    ensures
        count_in_row(a, cell, n) == count_in_row(b, cell, n) + 1,
    decreases n,
{
    if n - 1 == col {
        lemma_row_same(a, b, cell, n - 1);
    } else {
        lemma_row_one_more(a, b, cell, col, n - 1);
    }
}

proof fn lemma_rows_same(a: Grid, b: Grid, cell: Cell, n: int)
    requires
        forall|r: int, c: int|
            0 <= r < n && 0 <= c < 8 ==> (#[trigger] a[r][c] == cell <==> b[r][c] == cell),
    ensures
        count_in_rows(a, cell, n) == count_in_rows(b, cell, n),
    decreases n,
{
    if n > 0 {
        lemma_rows_same(a, b, cell, n - 1);
        lemma_row_same(a[n - 1], b[n - 1], cell, 8);
    }
}

proof fn lemma_rows_one_more(a: Grid, b: Grid, cell: Cell, row: int, col: int, n: int)
    requires
        0 <= row < n,
        0 <= col < 8,
        a[row][col] == cell,
        b[row][col] != cell,
        forall|r: int, c: int|
            0 <= r < n && 0 <= c < 8 && !(r == row && c == col) ==> (#[trigger] a[r][c] == cell
                <==> b[r][c] == cell),
    ensures
        count_in_rows(a, cell, n) == count_in_rows(b, cell, n) + 1,
    decreases n,
{
    if n - 1 == row {
        lemma_rows_same(a, b, cell, n - 1);
        lemma_row_one_more(a[row], b[row], cell, col, 8);
    } else {
        lemma_rows_one_more(a, b, cell, row, col, n - 1);
        lemma_row_same(a[n - 1], b[n - 1], cell, 8);
    }
}

/// A grid that holds `cell` where another does, and on `(row, col)` besides,
/// counts one more of it.
pub proof fn lemma_count_one_more(a: Grid, b: Grid, cell: Cell, row: int, col: int)
    requires
        on_board(row, col),
        a[row][col] == cell,
        b[row][col] != cell,
        forall|r: int, c: int|
            on_board(r, c) && !(r == row && c == col) ==> (#[trigger] a[r][c] == cell <==> b[r][c]
                == cell),
    ensures
        count(a, cell) == count(b, cell) + 1,
{
    lemma_rows_one_more(a, b, cell, row, col, 8);
}

proof fn lemma_row_none(row: Seq<Cell>, cell: Cell, n: int)
    requires
        forall|c: int| 0 <= c < n ==> #[trigger] row[c] != cell,
    ensures
        count_in_row(row, cell, n) == 0,
    decreases n,
{
    if n > 0 {
        lemma_row_none(row, cell, n - 1);
    }
}

proof fn lemma_rows_none(grid: Grid, cell: Cell, n: int)
    requires
        forall|r: int, c: int| 0 <= r < n && 0 <= c < 8 ==> #[trigger] grid[r][c] != cell,
    ensures
        count_in_rows(grid, cell, n) == 0,
    decreases n,
{
    if n > 0 {
        lemma_rows_none(grid, cell, n - 1);
        lemma_row_none(grid[n - 1], cell, 8);
    }
}

/// A game starts with two pieces of each side and sixty empty squares.
pub proof fn lemma_starting_counts()
    ensures
        count(starting_grid(), Cell::Player1) == 2,
        count(starting_grid(), Cell::Player2) == 2,
        count(starting_grid(), Cell::Empty) == 60,
{
    let start = starting_grid();
    let bare = Seq::new(8, |r: int| Seq::new(8, |c: int| Cell::Empty));
    let first = Seq::new(
        8,
        |r: int|
            Seq::new(
                8,
                |c: int|
                    if r == 3 && c == 4 {
                        Cell::Player1
                    } else {
                        Cell::Empty
                    },
            ),
    );
    let second = Seq::new(
        8,
        |r: int|
            Seq::new(
                8,
                |c: int|
                    if r == 3 && c == 3 {
                        Cell::Player2
                    } else {
                        Cell::Empty
                    },
            ),
    );
    lemma_rows_none(bare, Cell::Player1, 8);
    lemma_count_one_more(first, bare, Cell::Player1, 3, 4);
    lemma_count_one_more(start, first, Cell::Player1, 4, 3);
    lemma_rows_none(bare, Cell::Player2, 8);
    lemma_count_one_more(second, bare, Cell::Player2, 3, 3);
    lemma_count_one_more(start, second, Cell::Player2, 4, 4);
    lemma_count_total(start);
}

/// A legal move adds exactly one piece to the board: the one placed. The
/// pieces it captures change sides and stay.
pub proof fn lemma_move_adds_one_piece(grid: Grid, row: int, col: int, color: Color)
    requires
        legal(grid, row, col, color),
    ensures
        occupied(after_move(grid, row, col, color)) == occupied(grid) + 1,
        count(after_move(grid, row, col, color), Cell::Empty) + 1 == count(grid, Cell::Empty),
{
    let after = after_move(grid, row, col, color);
    assert forall|r: int, c: int| on_board(r, c) && !(r == row && c == col) implies (
    #[trigger] grid[r][c] == Cell::Empty <==> after[r][c] == Cell::Empty) by {
        if captured(grid, row, col, color, r, c) {
            lemma_captured_was_rival(grid, row, col, color, r, c);
        }
    }
    lemma_count_one_more(grid, after, Cell::Empty, row, col);
    lemma_count_total(grid);
    lemma_count_total(after);
}

/// The score: how many squares hold a piece of the first side, and how many
/// of the second. Empty squares score for nobody.
pub fn tally_score(board: &Board) -> (scores: (i32, i32))
    ensures
        scores.0 == count(board@, Cell::Player1),
        scores.1 == count(board@, Cell::Player2),
{
    let mut first: i32 = 0;
    let mut second: i32 = 0;
    let mut row: usize = 0;
    while row < 8
        invariant
            row <= 8,
            first == count_in_rows(board@, Cell::Player1, row as int),
            second == count_in_rows(board@, Cell::Player2, row as int),
            first + second <= 8 * row,
        decreases 8 - row,
    {
        let mut col: usize = 0;
        let ghost first_above = first;
        let ghost second_above = second;
        while col < 8
            invariant
                row < 8,
                col <= 8,
                first == first_above + count_in_row(board@[row as int], Cell::Player1, col as int),
                second == second_above + count_in_row(
                    board@[row as int],
                    Cell::Player2,
                    col as int,
                ),
                0 <= first,
                0 <= second,
                first + second <= 8 * row + col,
            decreases 8 - col,
        {
            match board.cells[row][col] {
                Cell::Player1 => {
                    first = first + 1;
                },
                Cell::Player2 => {
                    second = second + 1;
                },
                Cell::Empty => {},
            }
            col = col + 1;
        }
        row = row + 1;
    }
    (first, second)
}

/// How a finished game ended.
#[derive(Clone, Copy, Debug, PartialEq, Eq)]
pub enum Outcome {
    /// `winner` holds `margin` more squares than the other side.
    Win { winner: Color, margin: i32 },
    /// Both sides hold the same number of squares.
    Draw,
}

/// Compares the two scores: the side with more pieces wins by the
/// difference, and equal scores are a draw.
pub fn judge(board: &Board) -> (outcome: Outcome)
    ensures
        match outcome {
            Outcome::Draw => count(board@, Cell::Player1) == count(board@, Cell::Player2),
            Outcome::Win { winner, margin } => margin >= 1 && count(board@, winner.cell())
                == count(board@, winner.opponent().cell()) + margin,
        },
{
    proof {
        lemma_count_total(board@);
    }
    let (first, second): (i32, i32) = tally_score(board);
    if first > second {
        Outcome::Win { winner: Color::Player1, margin: first - second }
    } else if second > first {
        Outcome::Win { winner: Color::Player2, margin: second - first }
    } else {
        Outcome::Draw
    }
}

} // verus!
