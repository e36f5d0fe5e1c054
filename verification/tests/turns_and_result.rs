use reversi::board::{create_board, Board, Cell, Color};
use reversi::engine::{valid_move_exists, IllegalMove};
use reversi::game::{begin_turn, submit_move, Phase};
use reversi::score::{judge, tally_score, Outcome};

fn empty_board() -> Board {
    Board { cells: [[Cell::Empty; 8]; 8] }
}

/// Only the second side can move: it captures (0, 1) by playing (0, 2).
fn board_where_first_side_is_stuck() -> Board {
    let mut board = empty_board();
    board.cells[0][0] = Cell::Player2;
    board.cells[0][1] = Cell::Player1;
    board
}

#[test]
fn side_to_move_keeps_the_turn_when_it_can_move() {
    let board = create_board();
    assert_eq!(begin_turn(&board, Phase::Turn(Color::Player1)), Phase::Turn(Color::Player1));
    assert_eq!(begin_turn(&board, Phase::Turn(Color::Player2)), Phase::Turn(Color::Player2));
}

#[test]
fn stuck_side_passes_and_the_game_goes_on() {
    let mut board = board_where_first_side_is_stuck();
    assert!(!valid_move_exists(&board, Color::Player1));
    assert!(valid_move_exists(&board, Color::Player2));
    let phase = begin_turn(&board, Phase::Turn(Color::Player1));
    assert_eq!(phase, Phase::Turn(Color::Player2));
    // The side that passed has lost nothing, and its rival plays on.
    assert_eq!(tally_score(&board), (1, 1));
    assert_eq!(submit_move(&mut board, phase, "ac"), Ok(Phase::Turn(Color::Player1)));
    assert_eq!(tally_score(&board), (0, 3));
}

#[test]
fn game_is_over_when_neither_side_can_move() {
    let board = empty_board();
    assert_eq!(begin_turn(&board, Phase::Turn(Color::Player1)), Phase::GameOver);
    assert_eq!(begin_turn(&board, Phase::Turn(Color::Player2)), Phase::GameOver);
    let full = Board { cells: [[Cell::Player2; 8]; 8] };
    assert_eq!(begin_turn(&full, Phase::Turn(Color::Player1)), Phase::GameOver);
}

#[test]
fn finished_game_stays_finished() {
    assert_eq!(begin_turn(&create_board(), Phase::GameOver), Phase::GameOver);
    let mut board = create_board();
    assert_eq!(submit_move(&mut board, Phase::GameOver, "cd"), Err(IllegalMove));
    assert_eq!(board, create_board());
}

#[test]
fn legal_move_hands_the_turn_over() {
    let mut board = create_board();
    assert_eq!(
        submit_move(&mut board, Phase::Turn(Color::Player1), "cd"),
        Ok(Phase::Turn(Color::Player2))
    );
    assert_eq!(tally_score(&board), (4, 1));
    assert_eq!(
        submit_move(&mut board, Phase::Turn(Color::Player2), "cc"),
        Ok(Phase::Turn(Color::Player1))
    );
    assert_eq!(tally_score(&board), (3, 3));
}

#[test]
fn refused_move_keeps_board_and_turn() {
    let mut board = create_board();
    for text in ["dd", "aa", "", "d", "cdc", "c4"] {
        assert_eq!(submit_move(&mut board, Phase::Turn(Color::Player1), text), Err(IllegalMove));
    }
    // Legal for the rival only.
    assert_eq!(submit_move(&mut board, Phase::Turn(Color::Player1), "ce"), Err(IllegalMove));
    assert_eq!(board, create_board());
}

#[test]
fn equal_counts_are_a_draw() {
    assert_eq!(judge(&empty_board()), Outcome::Draw);
    let mut board = Board { cells: [[Cell::Player1; 8]; 8] };
    for r in 0..4 {
        board.cells[r] = [Cell::Player2; 8];
    }
    assert_eq!(begin_turn(&board, Phase::Turn(Color::Player1)), Phase::GameOver);
    assert_eq!(tally_score(&board), (32, 32));
    assert_eq!(judge(&board), Outcome::Draw);
}

#[test]
fn higher_count_wins_by_the_difference() {
    let mut board = Board { cells: [[Cell::Player1; 8]; 8] };
    for r in 0..3 {
        board.cells[r] = [Cell::Player2; 8];
    }
    assert_eq!(begin_turn(&board, Phase::Turn(Color::Player2)), Phase::GameOver);
    assert_eq!(tally_score(&board), (40, 24));
    assert_eq!(judge(&board), Outcome::Win { winner: Color::Player1, margin: 16 });

    let mut board = empty_board();
    board.cells[0][0] = Cell::Player2;
    board.cells[7][7] = Cell::Player2;
    board.cells[0][7] = Cell::Player1;
    assert_eq!(begin_turn(&board, Phase::Turn(Color::Player1)), Phase::GameOver);
    assert_eq!(judge(&board), Outcome::Win { winner: Color::Player2, margin: 1 });
}

#[test]
fn wiped_out_side_loses_by_every_piece() {
    let board = Board { cells: [[Cell::Player2; 8]; 8] };
    assert_eq!(judge(&board), Outcome::Win { winner: Color::Player2, margin: 64 });
}
