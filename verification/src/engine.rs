//! The move engine: which pieces a move captures, and playing it.

use vstd::prelude::*;
use crate::board::{on_board, Board, Cell, Color};
use crate::notation::{decode_move, decoded};
use crate::rules::{
    after_move, brackets, can_move, captured, holds, is_direction, legal, lemma_line_end,
    lemma_move_only_turns_rivals, lemma_step_on_board, lemma_step_unit, step,
};
use crate::score::{lemma_move_adds_one_piece, occupied};
use crate::sweep::{
    gathered, lemma_gathered_all, lemma_line_gathered, lemma_skip_gathered, visited,
};

verus! {

/// Walks from `(row, col)` along `(di, dj)` and counts the rival pieces that a
/// piece of `color` placed on `(row, col)` would bracket in that direction.
/// The count is zero when the walk meets an empty square or the edge of the
/// board before a piece of `color`, or meets a piece of `color` at once.
pub fn scan_direction(board: &Board, row: usize, col: usize, di: i8, dj: i8, color: Color) -> (n:
    usize)
    requires
        row < 8,
        col < 8,
        is_direction(di as int, dj as int),
    ensures
        n <= 6,
        forall|m: int| #[trigger]
            brackets(board@, row as int, col as int, di as int, dj as int, color, m) <==> (m == n
                && m >= 1),
{
    let own = color.cell();
    let rival = color.opponent().cell();
    let mut r: i8 = row as i8 + di;
    let mut c: i8 = col as i8 + dj;
    let mut n: usize = 0;
    proof {
        lemma_step_unit(row as int, col as int, di as int, dj as int, 1);
    }
    while 0 <= r && r < 8 && 0 <= c && c < 8
        invariant
            row < 8,
            col < 8,
            is_direction(di as int, dj as int),
            own == color.cell(),
            rival == color.opponent().cell(),
            n <= 7,
            (r as int, c as int) == step(row as int, col as int, di as int, dj as int, n + 1),
            forall|k: int|
                1 <= k <= n ==> holds(
                    board@,
                    #[trigger] step(row as int, col as int, di as int, dj as int, k),
                    rival,
                ),
        decreases 8 - n,
    {
        proof {
            lemma_step_on_board(row as int, col as int, di as int, dj as int, n + 1);
            lemma_step_unit(row as int, col as int, di as int, dj as int, n + 1);
            lemma_step_unit(row as int, col as int, di as int, dj as int, n + 2);
        }
        let cell = board.cells[r as usize][c as usize];
        if cell == rival {
            n = n + 1;
            r = r + di;
            c = c + dj;
        } else {
            proof {
                lemma_line_end(board@, row as int, col as int, di as int, dj as int, color, n + 1);
            }
            if cell == own {
                return n;
            }
            return 0;
        }
    }
    proof {
        lemma_line_end(board@, row as int, col as int, di as int, dj as int, color, n + 1);
    }
    0
}

/// Appends to `flips` the `n` squares bracketed along `(di, dj)`.
fn push_line(
    flips: &mut Vec<(usize, usize)>,
    board: &Board,
    row: usize,
    col: usize,
    di: i8,
    dj: i8,
    color: Color,
    n: usize,
)
    requires
        row < 8,
        col < 8,
        is_direction(di as int, dj as int),
        n >= 1,
        brackets(board@, row as int, col as int, di as int, dj as int, color, n as int),
        gathered(board@, row as int, col as int, color, di as int, dj as int, old(flips)@),
    ensures
        gathered(board@, row as int, col as int, color, di as int, dj as int + 1, final(flips)@),
{
    let ghost before = flips@;
    let mut r: i8 = row as i8;
    let mut c: i8 = col as i8;
    let mut k: usize = 0;
    proof {
        lemma_step_unit(row as int, col as int, di as int, dj as int, 0);
    }
    while k < n
        invariant
            row < 8,
            col < 8,
            is_direction(di as int, dj as int),
            k <= n,
            brackets(board@, row as int, col as int, di as int, dj as int, color, n as int),
            gathered(board@, row as int, col as int, color, di as int, dj as int, before),
            (r as int, c as int) == step(row as int, col as int, di as int, dj as int, k as int),
            on_board(r as int, c as int),
            flips@.len() == before.len() + k,
            flips@.subrange(0, before.len() as int) == before,
            forall|i: int|
                0 <= i < k ==> {
                    let at = step(row as int, col as int, di as int, dj as int, i + 1);
                    #[trigger] flips@[before.len() + i] == (at.0 as usize, at.1 as usize)
                },
        decreases n - k,
    {
        proof {
            lemma_step_unit(row as int, col as int, di as int, dj as int, k as int);
            lemma_step_unit(row as int, col as int, di as int, dj as int, k + 1);
            assert(holds(
                board@,
                step(row as int, col as int, di as int, dj as int, k + 1),
                color.opponent().cell(),
            ));
        }
        r = r + di;
        c = c + dj;
        k = k + 1;
        flips.push((r as usize, c as usize));
        assert(flips@.subrange(0, before.len() as int) =~= before);
    }
    proof {
        lemma_line_gathered(
            board@,
            row as int,
            col as int,
            di as int,
            dj as int,
            color,
            n as int,
            before,
            flips@,
        );
    }
}

/// The pieces that `color` would capture by playing on `(row, col)`, each
/// listed once, or `None` if the move is not legal: the square is taken, or
/// no direction brackets a rival piece.
pub fn is_legal_and_capture_set(board: &Board, row: usize, col: usize, color: Color) -> (res:
    Option<Vec<(usize, usize)>>)
    requires
        row < 8,
        col < 8,
    ensures
        res is Some <==> legal(board@, row as int, col as int, color),
        res matches Some(flips) ==> {
            &&& flips@.no_duplicates()
            &&& forall|i: int|
                0 <= i < flips@.len() ==> captured(
                    board@,
                    row as int,
                    col as int,
                    color,
                    (#[trigger] flips@[i]).0 as int,
                    flips@[i].1 as int,
                )
            &&& forall|r: int, c: int| #[trigger]
                captured(board@, row as int, col as int, color, r, c) ==> on_board(r, c)
                    && flips@.contains((r as usize, c as usize))
        },
{
    if board.cells[row][col] != Cell::Empty {
        return None;
    }
    let mut flips: Vec<(usize, usize)> = Vec::new();
    let mut di: i8 = -1;
    while di <= 1
        invariant
            row < 8,
            col < 8,
            -1 <= di <= 2,
            gathered(board@, row as int, col as int, color, di as int, -1, flips@),
        decreases 2 - di,
    {
        let mut dj: i8 = -1;
        while dj <= 1
            invariant
                row < 8,
                col < 8,
                -1 <= di <= 1,
                -1 <= dj <= 2,
                gathered(board@, row as int, col as int, color, di as int, dj as int, flips@),
            decreases 2 - dj,
        {
            if di == 0 && dj == 0 {
                proof {
                    lemma_skip_gathered(board@, row as int, col as int, color, 0, 0, 0, 1, flips@);
                }
            } else {
                let n: usize = scan_direction(board, row, col, di, dj, color);
                if n >= 1 {
                    push_line(&mut flips, board, row, col, di, dj, color, n);
                } else {
                    proof {
                        lemma_skip_gathered(
                            board@,
                            row as int,
                            col as int,
                            color,
                            di as int,
                            dj as int,
                            di as int,
                            dj + 1,
                            flips@,
                        );
                    }
                }
            }
            dj = dj + 1;
        }
        proof {
            lemma_skip_gathered(
                board@,
                row as int,
                col as int,
                color,
                di as int,
                2,
                di + 1,
                -1,
                flips@,
            );
        }
        di = di + 1;
    }
    proof {
        lemma_gathered_all(board@, row as int, col as int, color, flips@);
    }
    if flips.len() == 0 {
        None
    } else {
        Some(flips)
    }
}

/// The only way a move fails: the square is taken, or the move captures nothing.
#[derive(Clone, Copy, Debug, PartialEq, Eq)]
pub struct IllegalMove;

/// Plays a piece of `color` on `(row, col)`: turns over every piece that the
/// move captures on the board as it stood, then places the new piece. An
/// illegal move is refused and leaves the board as it was.
pub fn apply(board: &mut Board, row: usize, col: usize, color: Color) -> (res: Result<
    (),
    IllegalMove,
>)
    requires
        row < 8,
        col < 8,
    ensures
        res is Ok <==> legal(old(board)@, row as int, col as int, color),
        res is Err ==> *final(board) == *old(board),
        res is Ok ==> final(board)@ == after_move(old(board)@, row as int, col as int, color),
        res is Ok ==> final(board)@[row as int][col as int] == color.cell(),
        res is Ok ==> forall|r: int, c: int|
            on_board(r, c) && !(r == row && c == col) && #[trigger] final(board)@[r][c] != old(
                board,
            )@[r][c] ==> old(board)@[r][c] == color.opponent().cell() && final(board)@[r][c]
                == color.cell(),
        res is Ok ==> occupied(final(board)@) == occupied(old(board)@) + 1,
{
    let ghost before = board@;
    match is_legal_and_capture_set(board, row, col, color) {
        None => Err(IllegalMove),
        Some(flips) => {
            let piece = color.cell();
            let mut i: usize = 0;
            while i < flips.len()
                invariant
                    i <= flips.len(),
                    piece == color.cell(),
                    forall|j: int|
                        0 <= j < flips@.len() ==> on_board(
                            (#[trigger] flips@[j]).0 as int,
                            flips@[j].1 as int,
                        ),
                    forall|r: int, c: int|
                        on_board(r, c) ==> #[trigger] board@[r][c] == (if exists|j: int|
                            0 <= j < i && flips@[j] == (r as usize, c as usize) {
                            piece
                        } else {
                            before[r][c]
                        }),
                decreases flips.len() - i,
            {
                let (r, c): (usize, usize) = flips[i];
                let ghost earlier = board@;
                board.cells[r][c] = piece;
                assert forall|x: int, y: int| on_board(x, y) implies #[trigger] board@[x][y] == (
                if exists|j: int| 0 <= j < i + 1 && flips@[j] == (x as usize, y as usize) {
                    piece
                } else {
                    before[x][y]
                }) by {
                    if x == r && y == c {
                        assert(flips@[i as int] == (x as usize, y as usize));
                    } else {
                        assert(board@[x][y] == earlier[x][y]);
                    }
                }
                i = i + 1;
            }
            let ghost turned = board@;
            board.cells[row][col] = piece;
            proof {
                let after = after_move(before, row as int, col as int, color);
                assert forall|x: int, y: int| on_board(x, y) implies #[trigger] board@[x][y]
                    == after[x][y] by {
                    if !(x == row && y == col) {
                        assert(board@[x][y] == turned[x][y]);
                        if captured(before, row as int, col as int, color, x, y) {
                            assert(flips@.contains((x as usize, y as usize)));
                            let j = choose|j: int|
                                0 <= j < flips@.len() && flips@[j] == (x as usize, y as usize);
                            assert(0 <= j < i && flips@[j] == (x as usize, y as usize));
                        } else if exists|j: int|
                            0 <= j < i && flips@[j] == (x as usize, y as usize) {
                            let j = choose|j: int|
                                0 <= j < i && flips@[j] == (x as usize, y as usize);
                            assert(captured(
                                before,
                                row as int,
                                col as int,
                                color,
                                flips@[j].0 as int,
                                flips@[j].1 as int,
                            ));
                        }
                    }
                }
                assert(board@ =~~= after);
                lemma_move_only_turns_rivals(before, row as int, col as int, color);
                lemma_move_adds_one_piece(before, row as int, col as int, color);
            }
            Ok(())
        },
    }
}

/// Plays the move that `user_move` spells, row label first, for `color`.
/// Text that names no square is refused like an illegal move, and the board
/// is left as it was.
pub fn modify_board(board: &mut Board, user_move: &str, color: Color) -> (res: Result<
    (),
    IllegalMove,
>)
    ensures
        res is Ok <==> (decoded(user_move@) matches Some((row, col)) && legal(
            old(board)@,
            row as int,
            col as int,
            color,
        )),
        res is Err ==> *final(board) == *old(board),
        res is Ok ==> (decoded(user_move@) matches Some((row, col)) && final(board)@ == after_move(
            old(board)@,
            row as int,
            col as int,
            color,
        )),
        res is Ok ==> occupied(final(board)@) == occupied(old(board)@) + 1,
{
    match decode_move(user_move) {
        Some((row, col)) => apply(board, row, col, color),
        None => Err(IllegalMove),
    }
}

/// Whether `color` may play on `(row, col)`. Stops at the first direction
/// that brackets a rival piece.
pub fn is_legal(board: &Board, row: usize, col: usize, color: Color) -> (ok: bool)
    requires
        row < 8,
        col < 8,
    ensures
        ok == legal(board@, row as int, col as int, color),
{
    if board.cells[row][col] != Cell::Empty {
        return false;
    }
    let mut di: i8 = -1;
    while di <= 1
        invariant
            row < 8,
            col < 8,
            -1 <= di <= 2,
            board@[row as int][col as int] == Cell::Empty,
            forall|a: int, b: int, n: int|
                visited(a, b, di as int, -1) ==> !#[trigger] brackets(
                    board@,
                    row as int,
                    col as int,
                    a,
                    b,
                    color,
                    n,
                ),
        decreases 2 - di,
    {
        let mut dj: i8 = -1;
        while dj <= 1
            invariant
                row < 8,
                col < 8,
                -1 <= di <= 1,
                -1 <= dj <= 2,
                board@[row as int][col as int] == Cell::Empty,
                forall|a: int, b: int, n: int|
                    visited(a, b, di as int, dj as int) ==> !#[trigger] brackets(
                        board@,
                        row as int,
                        col as int,
                        a,
                        b,
                        color,
                        n,
                    ),
            decreases 2 - dj,
        {
            if !(di == 0 && dj == 0) {
                let n: usize = scan_direction(board, row, col, di, dj, color);
                if n >= 1 {
                    assert(brackets(
                        board@,
                        row as int,
                        col as int,
                        di as int,
                        dj as int,
                        color,
                        n as int,
                    ));
                    return true;
                }
            }
            dj = dj + 1;
        }
        di = di + 1;
    }
    false
}

/// Whether `color` has a legal move on any square of the board.
pub fn valid_move_exists(board: &Board, color: Color) -> (found: bool)
    ensures
        found == can_move(board@, color),
        (forall|r: int, c: int| on_board(r, c) ==> #[trigger] board@[r][c] != Cell::Empty)
            ==> !found,
{
    let mut row: usize = 0;
    while row < 8
        invariant
            row <= 8,
            forall|r: int, c: int| r < row ==> !#[trigger] legal(board@, r, c, color),
        decreases 8 - row,
    {
        let mut col: usize = 0;
        while col < 8
            invariant
                row < 8,
                col <= 8,
                forall|r: int, c: int|
                    r < row || (r == row && c < col) ==> !#[trigger] legal(board@, r, c, color),
            decreases 8 - col,
        {
            if is_legal(board, row, col, color) {
                return true;
            }
            col = col + 1;
        }
        row = row + 1;
    }
    false
}

} // verus!
