//! Whose turn it is, when a side must pass, and when the game is over.

use vstd::prelude::*;
use crate::board::{Board, Color, Grid};
use crate::engine::{modify_board, valid_move_exists, IllegalMove};
use crate::notation::decoded;
use crate::rules::{after_move, can_move, legal};

verus! {

/// Where a game stands between moves.
#[derive(Clone, Copy, Debug, PartialEq, Eq, Structural)]
pub enum Phase {
    /// This side is to move.
    Turn(Color),
    /// Neither side can move: the game is finished.
    GameOver,
}

/// The phase once passes are settled. The side to move keeps the turn if it
/// can move. If it cannot, but its rival can, it passes and the rival is to
/// move. If neither can move on this board, the game is over.
pub open spec fn settled(grid: Grid, phase: Phase) -> Phase {
    match phase {
        Phase::GameOver => Phase::GameOver,
        Phase::Turn(color) => if can_move(grid, color) {
            Phase::Turn(color)
        } else if can_move(grid, color.opponent()) {
            Phase::Turn(color.opponent())
        } else {
            Phase::GameOver
        },
    }
}

/// Settles passes before a turn is played.
pub fn begin_turn(board: &Board, phase: Phase) -> (next: Phase)
    ensures
        next == settled(board@, phase),
{
    match phase {
        Phase::GameOver => Phase::GameOver,
        Phase::Turn(color) => {
            if valid_move_exists(board, color) {
                Phase::Turn(color)
            } else if valid_move_exists(board, color.opponent()) {
                Phase::Turn(color.opponent())
            } else {
                Phase::GameOver
            }
        },
    }
}

/// Plays the move that `user_move` spells for the side whose turn it is, and
/// hands the turn to its rival. Text that names no square, an illegal move,
/// or any move once the game is over is refused: the board stays as it was,
/// and the same side is to be asked again.
pub fn submit_move(board: &mut Board, phase: Phase, user_move: &str) -> (res: Result<
    Phase,
    IllegalMove,
>)
    ensures
        res is Ok <==> (phase matches Phase::Turn(color) && decoded(user_move@) matches Some(
            (row, col),
        ) && legal(old(board)@, row as int, col as int, color)),
        res is Err ==> *final(board) == *old(board),
        res matches Ok(next) ==> (phase matches Phase::Turn(color) && decoded(
            user_move@,
        ) matches Some((row, col)) && next == Phase::Turn(color.opponent()) && final(board)@
            == after_move(old(board)@, row as int, col as int, color)),
{
    match phase {
        Phase::GameOver => Err(IllegalMove),
        Phase::Turn(color) => match modify_board(board, user_move, color) {
            Ok(()) => Ok(Phase::Turn(color.opponent())),
            Err(refusal) => Err(refusal),
        },
    }
}

} // verus!
