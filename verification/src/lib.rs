//! Rules of Reversi on the standard eight-by-eight board.
//!
//! [`board`] holds the grid and the two sides, [`rules`] says what a move
//! captures, [`engine`] finds and plays moves, [`score`] counts pieces and
//! names the winner, [`game`] keeps the turn, [`notation`] reads moves as
//! players write them, and [`render`] draws the board as text.

pub mod board;
pub mod engine;
pub mod game;
pub mod notation;
pub mod render;
pub mod rules;
pub mod score;
mod sweep;

pub use board::{create_board, Board, Cell, Color};
pub use engine::{
    apply, is_legal, is_legal_and_capture_set, modify_board, scan_direction, valid_move_exists,
    IllegalMove,
};
pub use game::{begin_turn, submit_move, Phase};
pub use notation::decode_move;
pub use render::render_board;
pub use score::{judge, tally_score, Outcome};
