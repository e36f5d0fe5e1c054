//! Bookkeeping for a sweep over the eight directions: what has been gathered
//! once some of them have been visited.

use vstd::prelude::*;
use crate::board::{on_board, Cell, Color, Grid};
use crate::rules::{
    brackets, captured, captured_along, holds, is_direction, legal, lemma_brackets_unique,
    lemma_rays_disjoint, step,
};

verus! {

/// Whether the direction `(a, b)` is visited before `(di, dj)` when rows of
/// directions are visited in turn, each from left to right.
pub open spec fn visited(a: int, b: int, di: int, dj: int) -> bool {
    is_direction(a, b) && (a < di || (a == di && b < dj))
}

/// Whether `(r, c)` is captured along a direction visited before `(di, dj)`.
pub open spec fn captured_before(
    grid: Grid,
    row: int,
    col: int,
    color: Color,
    di: int,
    dj: int,
    r: int,
    c: int,
) -> bool {
    exists|a: int, b: int|
        visited(a, b, di, dj) && #[trigger] captured_along(grid, row, col, a, b, color, r, c)
}

/// Whether `flips` lists, each once, the squares captured along the
/// directions visited before `(di, dj)`.
pub open spec fn gathered(
    grid: Grid,
    row: int,
    col: int,
    color: Color,
    di: int,
    dj: int,
    flips: Seq<(usize, usize)>,
) -> bool {
    &&& flips.no_duplicates()
    &&& forall|i: int|
        0 <= i < flips.len() ==> captured_before(
            grid,
            row,
            col,
            color,
            di,
            dj,
            (#[trigger] flips[i]).0 as int,
            flips[i].1 as int,
        )
    &&& forall|r: int, c: int| #[trigger]
        captured_before(grid, row, col, color, di, dj, r, c) ==> on_board(r, c)
            && flips.contains((r as usize, c as usize))
}

/// Moving on from `(di, dj)` to `(ei, ej)` keeps what was gathered, when no
/// direction from the one up to the other captures anything.
pub proof fn lemma_skip_gathered(
    grid: Grid,
    row: int,
    col: int,
    color: Color,
    di: int,
    dj: int,
    ei: int,
    ej: int,
    flips: Seq<(usize, usize)>,
)
    requires
        gathered(grid, row, col, color, di, dj, flips),
        forall|a: int, b: int| visited(a, b, di, dj) ==> visited(a, b, ei, ej),
        forall|a: int, b: int, n: int|
            visited(a, b, ei, ej) && !visited(a, b, di, dj) ==> !#[trigger] brackets(
                grid,
                row,
                col,
                a,
                b,
                color,
                n,
            ),
    ensures
        gathered(grid, row, col, color, ei, ej, flips),
{
    assert forall|i: int| 0 <= i < flips.len() implies captured_before(
        grid,
        row,
        col,
        color,
        ei,
        ej,
        (#[trigger] flips[i]).0 as int,
        flips[i].1 as int,
    ) by {
        let at = (flips[i].0 as int, flips[i].1 as int);
        assert(captured_before(grid, row, col, color, di, dj, at.0, at.1));
        let (a, b) = choose|a: int, b: int|
            visited(a, b, di, dj) && #[trigger] captured_along(
                grid,
                row,
                col,
                a,
                b,
                color,
                flips[i].0 as int,
                flips[i].1 as int,
            );
        assert(visited(a, b, ei, ej));
    }
    assert forall|r: int, c: int| #[trigger]
        captured_before(grid, row, col, color, ei, ej, r, c) implies on_board(r, c)
        && flips.contains((r as usize, c as usize)) by {
        let (a, b) = choose|a: int, b: int|
            visited(a, b, ei, ej) && #[trigger] captured_along(grid, row, col, a, b, color, r, c);
        assert(visited(a, b, di, dj));
        assert(captured_before(grid, row, col, color, di, dj, r, c));
    }
}

/// Once every direction has been visited, what was gathered is what the move
/// captures, and the move is legal on an empty square if that is anything.
pub proof fn lemma_gathered_all(
    grid: Grid,
    row: int,
    col: int,
    color: Color,
    flips: Seq<(usize, usize)>,
)
    requires
        on_board(row, col),
        gathered(grid, row, col, color, 2, -1, flips),
    ensures
        forall|i: int|
            0 <= i < flips.len() ==> captured(
                grid,
                row,
                col,
                color,
                (#[trigger] flips[i]).0 as int,
                flips[i].1 as int,
            ),
        forall|r: int, c: int| #[trigger]
            captured(grid, row, col, color, r, c) ==> on_board(r, c) && flips.contains(
                (r as usize, c as usize),
            ),
        grid[row][col] == Cell::Empty ==> (flips.len() > 0 <==> legal(grid, row, col, color)),
{
    assert forall|i: int| 0 <= i < flips.len() implies captured(
        grid,
        row,
        col,
        color,
        (#[trigger] flips[i]).0 as int,
        flips[i].1 as int,
    ) by {
        assert(captured_before(grid, row, col, color, 2, -1, flips[i].0 as int, flips[i].1 as int));
    }
    assert forall|r: int, c: int| #[trigger]
        captured(grid, row, col, color, r, c) implies on_board(r, c) && flips.contains(
        (r as usize, c as usize),
    ) by {
        let (a, b) = choose|a: int, b: int|
            is_direction(a, b) && #[trigger] captured_along(grid, row, col, a, b, color, r, c);
        assert(visited(a, b, 2, -1));
        assert(captured_before(grid, row, col, color, 2, -1, r, c));
    }
    if flips.len() > 0 {
        assert(captured(grid, row, col, color, flips[0].0 as int, flips[0].1 as int));
    }
    if legal(grid, row, col, color) {
        let (a, b, n) = choose|a: int, b: int, n: int|
            is_direction(a, b) && #[trigger] brackets(grid, row, col, a, b, color, n);
        let at = step(row, col, a, b, 1);
        assert(captured_along(grid, row, col, a, b, color, at.0, at.1));
        assert(captured(grid, row, col, color, at.0, at.1));
        assert(flips.contains((at.0 as usize, at.1 as usize)));
    }
}

/// Appending a bracketed line to the squares gathered so far gathers that
/// direction too.
pub proof fn lemma_line_gathered(
    grid: Grid,
    row: int,
    col: int,
    di: int,
    dj: int,
    color: Color,
    n: int,
    before: Seq<(usize, usize)>,
    after: Seq<(usize, usize)>,
)
    requires
        on_board(row, col),
        is_direction(di, dj),
        brackets(grid, row, col, di, dj, color, n),
        gathered(grid, row, col, color, di, dj, before),
        after.len() == before.len() + n,
        after.subrange(0, before.len() as int) == before,
        forall|i: int|
            0 <= i < n ==> {
                let at = step(row, col, di, dj, i + 1);
                #[trigger] after[before.len() + i] == (at.0 as usize, at.1 as usize)
            },
    ensures
        gathered(grid, row, col, color, di, dj + 1, after),
{
    let len = before.len() as int;
    // Every square listed is captured along a direction visited by now.
    assert forall|i: int| 0 <= i < after.len() implies captured_before(
        grid,
        row,
        col,
        color,
        di,
        dj + 1,
        (#[trigger] after[i]).0 as int,
        after[i].1 as int,
    ) by {
        if i < len {
            assert(after[i] == after.subrange(0, len)[i]);
            let at = (before[i].0 as int, before[i].1 as int);
            assert(captured_before(grid, row, col, color, di, dj, at.0, at.1));
            let (a, b) = choose|a: int, b: int|
                visited(a, b, di, dj) && #[trigger] captured_along(
                    grid,
                    row,
                    col,
                    a,
                    b,
                    color,
                    before[i].0 as int,
                    before[i].1 as int,
                );
            assert(visited(a, b, di, dj + 1));
        } else {
            let k = i - len + 1;
            let at = step(row, col, di, dj, k);
            assert(after[len + (k - 1)] == (at.0 as usize, at.1 as usize));
            assert(holds(grid, step(row, col, di, dj, k), color.opponent().cell()));
            assert(captured_along(grid, row, col, di, dj, color, at.0, at.1));
            assert(visited(di, dj, di, dj + 1));
        }
    }
    // Every square captured along such a direction is listed.
    assert forall|r: int, c: int| #[trigger]
        captured_before(grid, row, col, color, di, dj + 1, r, c) implies on_board(r, c)
        && after.contains((r as usize, c as usize)) by {
        let (a, b) = choose|a: int, b: int|
            visited(a, b, di, dj + 1) && #[trigger] captured_along(
                grid,
                row,
                col,
                a,
                b,
                color,
                r,
                c,
            );
        if a == di && b == dj {
            let (m, k) = choose|m: int, k: int|
                #![trigger brackets(grid, row, col, di, dj, color, m), step(row, col, di, dj, k)]
                brackets(grid, row, col, di, dj, color, m) && 1 <= k <= m && step(
                    row,
                    col,
                    di,
                    dj,
                    k,
                ) == (r, c);
            lemma_brackets_unique(grid, row, col, di, dj, color, m, n);
            assert(holds(grid, step(row, col, di, dj, k), color.opponent().cell()));
            let at = step(row, col, di, dj, (k - 1) + 1);
            assert(after[len + (k - 1)] == (at.0 as usize, at.1 as usize));
        } else {
            assert(visited(a, b, di, dj));
            assert(captured_before(grid, row, col, color, di, dj, r, c));
            let i = choose|i: int| 0 <= i < before.len() && before[i] == (r as usize, c as usize);
            assert(after[i] == after.subrange(0, len)[i]);
        }
    }
    // No square is listed twice.
    assert forall|i: int, j: int| 0 <= i < j < after.len() implies after[i] != after[j] by {
        if j < len {
            assert(after[i] == after.subrange(0, len)[i]);
            assert(after[j] == after.subrange(0, len)[j]);
        } else {
            let kj = j - len + 1;
            let pj = step(row, col, di, dj, kj);
            assert(after[len + (kj - 1)] == (pj.0 as usize, pj.1 as usize));
            assert(holds(grid, step(row, col, di, dj, kj), color.opponent().cell()));
            if i < len {
                assert(after[i] == after.subrange(0, len)[i]);
                let at = (before[i].0 as int, before[i].1 as int);
                assert(captured_before(grid, row, col, color, di, dj, at.0, at.1));
                let (a, b) = choose|a: int, b: int|
                    visited(a, b, di, dj) && #[trigger] captured_along(
                        grid,
                        row,
                        col,
                        a,
                        b,
                        color,
                        before[i].0 as int,
                        before[i].1 as int,
                    );
                let (m, k) = choose|m: int, k: int|
                    #![trigger brackets(grid, row, col, a, b, color, m), step(row, col, a, b, k)]
                    brackets(grid, row, col, a, b, color, m) && 1 <= k <= m && step(
                        row,
                        col,
                        a,
                        b,
                        k,
                    ) == (before[i].0 as int, before[i].1 as int);
                if after[i] == after[j] {
                    lemma_rays_disjoint(row, col, a, b, k, di, dj, kj);
                }
            } else {
                let ki = i - len + 1;
                let pi = step(row, col, di, dj, ki);
                assert(after[len + (ki - 1)] == (pi.0 as usize, pi.1 as usize));
                assert(holds(grid, step(row, col, di, dj, ki), color.opponent().cell()));
                if after[i] == after[j] {
                    lemma_rays_disjoint(row, col, di, dj, ki, di, dj, kj);
                }
            }
        }
    }
}

} // verus!
