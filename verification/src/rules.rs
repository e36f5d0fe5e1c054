//! What a move captures, stated over grids, and the facts every capture obeys.

use vstd::prelude::*;
use crate::board::{on_board, Cell, Color, Grid};

verus! {

/// The eight unit steps: along a row, along a column, or along a diagonal.
pub open spec fn is_direction(di: int, dj: int) -> bool {
    -1 <= di <= 1 && -1 <= dj <= 1 && !(di == 0 && dj == 0)
}

/// The square reached from `(row, col)` by `k` steps of `(di, dj)`.
pub open spec fn step(row: int, col: int, di: int, dj: int, k: int) -> (int, int) {
    (row + k * di, col + k * dj)
}

/// Whether `at` is a square of the board that holds `cell`.
pub open spec fn holds(grid: Grid, at: (int, int), cell: Cell) -> bool {
    on_board(at.0, at.1) && grid[at.0][at.1] == cell
}

/// A piece of `color` placed on `(row, col)` brackets exactly `n` pieces along
/// `(di, dj)`: the `n` nearest squares hold the rival, and the square after
/// them holds `color`.
pub open spec fn brackets(
    grid: Grid,
    row: int,
    col: int,
    di: int,
    dj: int,
    color: Color,
    n: int,
) -> bool {
    &&& n >= 1
    &&& forall|k: int|
        1 <= k <= n ==> holds(grid, #[trigger] step(row, col, di, dj, k), color.opponent().cell())
    &&& holds(grid, step(row, col, di, dj, n + 1), color.cell())
}

/// Whether `(r, c)` is one of the pieces that the move brackets along `(di, dj)`.
pub open spec fn captured_along(
    grid: Grid,
    row: int,
    col: int,
    di: int,
    dj: int,
    color: Color,
    r: int,
    c: int,
) -> bool {
    exists|n: int, k: int|
        #![trigger brackets(grid, row, col, di, dj, color, n), step(row, col, di, dj, k)]
        brackets(grid, row, col, di, dj, color, n) && 1 <= k <= n && step(row, col, di, dj, k) == (
            r,
            c,
        )
}

/// Whether the move turns the piece on `(r, c)` over.
pub open spec fn captured(grid: Grid, row: int, col: int, color: Color, r: int, c: int) -> bool {
    exists|di: int, dj: int|
        is_direction(di, dj) && #[trigger] captured_along(grid, row, col, di, dj, color, r, c)
}

/// A move is legal on an empty square from which at least one line of rival
/// pieces is bracketed.
pub open spec fn legal(grid: Grid, row: int, col: int, color: Color) -> bool {
    &&& on_board(row, col)
    &&& grid[row][col] == Cell::Empty
    &&& exists|di: int, dj: int, n: int|
        is_direction(di, dj) && #[trigger] brackets(grid, row, col, di, dj, color, n)
}

/// The grid after `color` has played on `(row, col)`: the placed piece and
/// every captured piece show `color`, and nothing else changes.
pub open spec fn after_move(grid: Grid, row: int, col: int, color: Color) -> Grid {
    Seq::new(
        8,
        |r: int|
            Seq::new(
                8,
                |c: int|
                    if (r == row && c == col) || captured(grid, row, col, color, r, c) {
                        color.cell()
                    } else {
                        grid[r][c]
                    },
            ),
    )
}

/// Whether `color` has a legal move anywhere.
pub open spec fn can_move(grid: Grid, color: Color) -> bool {
    exists|row: int, col: int| #[trigger] legal(grid, row, col, color)
}

/// Along a unit step, `k` steps move each coordinate by `k`, by `-k`, or not at all.
pub proof fn lemma_step_unit(row: int, col: int, di: int, dj: int, k: int)
    requires
        -1 <= di <= 1,
        -1 <= dj <= 1,
    ensures
        step(row, col, di, dj, k).0 == row + (if di == 1 {
            k
        } else if di == -1 {
            -k
        } else {
            0
        }),
        step(row, col, di, dj, k).1 == col + (if dj == 1 {
            k
        } else if dj == -1 {
            -k
        } else {
            0
        }),
{
    assert(k * di == (if di == 1 {
        k
    } else if di == -1 {
        -k
    } else {
        0
    })) by (nonlinear_arith)
        requires
            -1 <= di <= 1,
    ;
    assert(k * dj == (if dj == 1 {
        k
    } else if dj == -1 {
        -k
    } else {
        0
    })) by (nonlinear_arith)
        requires
            -1 <= dj <= 1,
    ;
}

/// Two walks from one square meet only if they are the same walk.
pub proof fn lemma_rays_disjoint(
    row: int,
    col: int,
    di: int,
    dj: int,
    k: int,
    ei: int,
    ej: int,
    m: int,
)
    requires
        is_direction(di, dj),
        is_direction(ei, ej),
        k >= 1,
        m >= 1,
        step(row, col, di, dj, k) == step(row, col, ei, ej, m),
    ensures
        di == ei,
        dj == ej,
        k == m,
{
    lemma_step_unit(row, col, di, dj, k);
    lemma_step_unit(row, col, ei, ej, m);
}

/// A walk that stays on the board is at most seven steps long.
pub proof fn lemma_step_on_board(row: int, col: int, di: int, dj: int, k: int)
    requires
        on_board(row, col),
        is_direction(di, dj),
        k >= 0,
        on_board(step(row, col, di, dj, k).0, step(row, col, di, dj, k).1),
    ensures
        k <= 7,
{
    lemma_step_unit(row, col, di, dj, k);
}

/// The first square of a line that does not hold the rival decides the line:
/// with `j - 1` rival pieces before it, the move brackets those `j - 1` pieces
/// if that square holds `color` and there is at least one of them, and
/// brackets nothing otherwise.
pub proof fn lemma_line_end(
    grid: Grid,
    row: int,
    col: int,
    di: int,
    dj: int,
    color: Color,
    j: int,
)
    requires
        j >= 1,
        forall|k: int|
            1 <= k < j ==> holds(
                grid,
                #[trigger] step(row, col, di, dj, k),
                color.opponent().cell(),
            ),
        !holds(grid, step(row, col, di, dj, j), color.opponent().cell()),
    ensures
        forall|n: int| #[trigger]
            brackets(grid, row, col, di, dj, color, n) <==> (n == j - 1 && n >= 1 && holds(
                grid,
                step(row, col, di, dj, j),
                color.cell(),
            )),
{
    assert forall|n: int| #[trigger]
        brackets(grid, row, col, di, dj, color, n) implies n == j - 1 by {
        if n >= j {
            assert(holds(grid, step(row, col, di, dj, j), color.opponent().cell()));
        } else if n < j - 1 {
            assert(holds(grid, step(row, col, di, dj, n + 1), color.opponent().cell()));
        }
    }
}

/// A move brackets at most one number of pieces along a direction.
pub proof fn lemma_brackets_unique(
    grid: Grid,
    row: int,
    col: int,
    di: int,
    dj: int,
    color: Color,
    n: int,
    m: int,
)
    requires
        brackets(grid, row, col, di, dj, color, n),
        brackets(grid, row, col, di, dj, color, m),
    ensures
        n == m,
{
    if n < m {
        assert(holds(grid, step(row, col, di, dj, n + 1), color.opponent().cell()));
    } else if m < n {
        assert(holds(grid, step(row, col, di, dj, m + 1), color.opponent().cell()));
    }
}

/// A captured square lies on the board away from the square played on, held
/// a rival piece before the move, and shows the mover's color after it.
pub proof fn lemma_captured_was_rival(
    grid: Grid,
    row: int,
    col: int,
    color: Color,
    r: int,
    c: int,
)
    requires
        captured(grid, row, col, color, r, c),
    ensures
        on_board(r, c),
        !(r == row && c == col),
        grid[r][c] == color.opponent().cell(),
        after_move(grid, row, col, color)[r][c] == color.cell(),
{
    let (di, dj) = choose|di: int, dj: int|
        is_direction(di, dj) && #[trigger] captured_along(grid, row, col, di, dj, color, r, c);
    let (n, k) = choose|n: int, k: int|
        #![trigger brackets(grid, row, col, di, dj, color, n), step(row, col, di, dj, k)]
        brackets(grid, row, col, di, dj, color, n) && 1 <= k <= n && step(row, col, di, dj, k) == (
            r,
            c,
        );
    assert(holds(grid, step(row, col, di, dj, k), color.opponent().cell()));
    lemma_step_unit(row, col, di, dj, k);
}

/// A move changes the board in two ways only. The square played on comes to
/// hold the mover's color. Any other square that changes held a rival piece
/// and now holds the mover's color.
pub proof fn lemma_move_only_turns_rivals(grid: Grid, row: int, col: int, color: Color)
    requires
        on_board(row, col),
    ensures
        after_move(grid, row, col, color)[row][col] == color.cell(),
        forall|r: int, c: int|
            on_board(r, c) && !(r == row && c == col) && #[trigger] after_move(
                grid,
                row,
                col,
                color,
            )[r][c] != grid[r][c] ==> grid[r][c] == color.opponent().cell() && after_move(
                grid,
                row,
                col,
                color,
            )[r][c] == color.cell(),
{
    let after = after_move(grid, row, col, color);
    assert forall|r: int, c: int|
        on_board(r, c) && !(r == row && c == col) && #[trigger] after[r][c]
            != grid[r][c] implies grid[r][c] == color.opponent().cell() && after[r][c]
        == color.cell() by {
        lemma_captured_was_rival(grid, row, col, color, r, c);
    }
}

/// A line of rival pieces that ends at the edge of the board or at an empty
/// square is not captured: when the `j - 1` squares nearest to `(row, col)`
/// along `(di, dj)` hold rival pieces and the next one is off the board or
/// empty, the move brackets nothing in that direction and leaves every
/// square of that line as it was.
pub proof fn lemma_open_line_stays(
    grid: Grid,
    row: int,
    col: int,
    di: int,
    dj: int,
    color: Color,
    j: int,
)
    requires
        is_direction(di, dj),
        j >= 1,
        forall|k: int|
            1 <= k < j ==> holds(
                grid,
                #[trigger] step(row, col, di, dj, k),
                color.opponent().cell(),
            ),
        !on_board(step(row, col, di, dj, j).0, step(row, col, di, dj, j).1) || holds(
            grid,
            step(row, col, di, dj, j),
            Cell::Empty,
        ),
    ensures
        forall|n: int| !#[trigger] brackets(grid, row, col, di, dj, color, n),
        forall|r: int, c: int| !#[trigger] captured_along(grid, row, col, di, dj, color, r, c),
        forall|k: int|
            k >= 1 && on_board(step(row, col, di, dj, k).0, step(row, col, di, dj, k).1) ==> {
                let at = #[trigger] step(row, col, di, dj, k);
                after_move(grid, row, col, color)[at.0][at.1] == grid[at.0][at.1]
            },
{
    lemma_line_end(grid, row, col, di, dj, color, j);
    assert forall|k: int|
        k >= 1 && on_board(step(row, col, di, dj, k).0, step(row, col, di, dj, k).1) implies {
        let at = #[trigger] step(row, col, di, dj, k);
        after_move(grid, row, col, color)[at.0][at.1] == grid[at.0][at.1]
    } by {
        let at = step(row, col, di, dj, k);
        lemma_step_unit(row, col, di, dj, k);
        if captured(grid, row, col, color, at.0, at.1) {
            let (ei, ej) = choose|ei: int, ej: int|
                is_direction(ei, ej) && #[trigger] captured_along(
                    grid,
                    row,
                    col,
                    ei,
                    ej,
                    color,
                    at.0,
                    at.1,
                );
            let (n, m) = choose|n: int, m: int|
                #![trigger brackets(grid, row, col, ei, ej, color, n), step(row, col, ei, ej, m)]
                brackets(grid, row, col, ei, ej, color, n) && 1 <= m <= n && step(
                    row,
                    col,
                    ei,
                    ej,
                    m,
                ) == at;
            lemma_rays_disjoint(row, col, di, dj, k, ei, ej, m);
        }
    }
}

/// On a board without an empty square nobody can move.
pub proof fn lemma_full_board_is_stuck(grid: Grid, color: Color)
    requires
        forall|r: int, c: int| on_board(r, c) ==> #[trigger] grid[r][c] != Cell::Empty,
    ensures
        !can_move(grid, color),
{
}

} // verus!
