use reversi::board::{create_board, Board, Cell, Color};
use reversi::engine::{
    apply, is_legal, is_legal_and_capture_set, modify_board, scan_direction, valid_move_exists,
    IllegalMove,
};
use reversi::notation::decode_move;
use reversi::score::tally_score;

fn empty_board() -> Board {
    Board { cells: [[Cell::Empty; 8]; 8] }
}

fn occupied(board: &Board) -> i32 {
    let (first, second) = tally_score(board);
    first + second
}

fn sorted(mut squares: Vec<(usize, usize)>) -> Vec<(usize, usize)> {
    squares.sort();
    squares
}

#[test]
fn player1_north_of_centre_flips_one_piece() {
    let mut board = create_board();
    assert_eq!(
        is_legal_and_capture_set(&board, 2, 3, Color::Player1),
        Some(vec![(3, 3)])
    );
    assert_eq!(apply(&mut board, 2, 3, Color::Player1), Ok(()));
    let mut expected = create_board();
    expected.cells[2][3] = Cell::Player1;
    expected.cells[3][3] = Cell::Player1;
    assert_eq!(board, expected);
    assert_eq!(tally_score(&board), (4, 1));
}

#[test]
fn occupied_centre_is_illegal_for_both_sides() {
    for color in [Color::Player1, Color::Player2] {
        let mut board = create_board();
        assert_eq!(is_legal_and_capture_set(&board, 3, 3, color), None);
        assert!(!is_legal(&board, 3, 3, color));
        assert_eq!(apply(&mut board, 3, 3, color), Err(IllegalMove));
        assert_eq!(board, create_board());
    }
}

#[test]
fn illegal_move_leaves_the_board_untouched() {
    let mut board = create_board();
    // Empty, but next to nothing that could be captured.
    assert_eq!(apply(&mut board, 0, 0, Color::Player1), Err(IllegalMove));
    assert_eq!(board, create_board());
    // Empty and next to the centre, but the line ends on the mover's rival.
    assert_eq!(apply(&mut board, 2, 3, Color::Player2), Err(IllegalMove));
    assert_eq!(board, create_board());
    // Every square of the starting board, for the side that cannot play it.
    for r in 0..8 {
        for c in 0..8 {
            for color in [Color::Player1, Color::Player2] {
                let mut trial = create_board();
                if apply(&mut trial, r, c, color).is_err() {
                    assert_eq!(trial, create_board());
                }
            }
        }
    }
}

#[test]
fn opening_moves_of_each_side() {
    let mut first = Vec::new();
    let mut second = Vec::new();
    let board = create_board();
    for r in 0..8 {
        for c in 0..8 {
            if is_legal(&board, r, c, Color::Player1) {
                first.push((r, c));
            }
            if is_legal(&board, r, c, Color::Player2) {
                second.push((r, c));
            }
        }
    }
    assert_eq!(first, vec![(2, 3), (3, 2), (4, 5), (5, 4)]);
    assert_eq!(second, vec![(2, 4), (3, 5), (4, 2), (5, 3)]);
}

#[test]
fn flipped_squares_held_the_rival_and_now_hold_the_mover() {
    let mut board = empty_board();
    // Three lines meet at (3, 3): west, north-west and south.
    board.cells[3][0] = Cell::Player1;
    board.cells[3][1] = Cell::Player2;
    board.cells[3][2] = Cell::Player2;
    board.cells[0][0] = Cell::Player1;
    board.cells[1][1] = Cell::Player2;
    board.cells[2][2] = Cell::Player2;
    board.cells[4][3] = Cell::Player2;
    board.cells[5][3] = Cell::Player1;
    // A rival piece that no line reaches.
    board.cells[6][6] = Cell::Player2;
    let before = board;
    let flips = is_legal_and_capture_set(&board, 3, 3, Color::Player1).unwrap();
    assert_eq!(
        sorted(flips.clone()),
        vec![(1, 1), (2, 2), (3, 1), (3, 2), (4, 3)]
    );
    assert_eq!(apply(&mut board, 3, 3, Color::Player1), Ok(()));
    assert_eq!(board.cells[3][3], Cell::Player1);
    for r in 0..8 {
        for c in 0..8 {
            if (r, c) == (3, 3) {
                continue;
            }
            if flips.contains(&(r, c)) {
                assert_eq!(before.cells[r][c], Cell::Player2);
                assert_eq!(board.cells[r][c], Cell::Player1);
            } else {
                assert_eq!(board.cells[r][c], before.cells[r][c]);
            }
        }
    }
    assert_eq!(tally_score(&board), (9, 1));
}

#[test]
fn capture_set_lists_no_square_twice() {
    let mut board = Board { cells: [[Cell::Player2; 8]; 8] };
    board.cells[3][3] = Cell::Empty;
    for i in 0..8 {
        board.cells[0][i] = Cell::Player1;
        board.cells[7][i] = Cell::Player1;
        board.cells[i][0] = Cell::Player1;
        board.cells[i][7] = Cell::Player1;
    }
    let flips = is_legal_and_capture_set(&board, 3, 3, Color::Player1).unwrap();
    let unique = sorted(flips.clone());
    let mut deduped = unique.clone();
    deduped.dedup();
    assert_eq!(unique, deduped);
    // West 2, east 3, north 2, south 3, and the four diagonals 2, 2, 2, 3.
    assert_eq!(flips.len(), 19);
}

#[test]
fn line_open_to_the_edge_is_not_captured() {
    let mut board = empty_board();
    // Rival pieces run from (0, 1) to the east edge with no piece of the mover behind.
    for c in 1..8 {
        board.cells[0][c] = Cell::Player2;
    }
    assert_eq!(scan_direction(&board, 0, 0, 0, 1, Color::Player1), 0);
    assert_eq!(is_legal_and_capture_set(&board, 0, 0, Color::Player1), None);
    let before = board;
    assert_eq!(apply(&mut board, 0, 0, Color::Player1), Err(IllegalMove));
    assert_eq!(board, before);
}

#[test]
fn line_open_to_an_empty_square_is_not_captured() {
    let mut board = empty_board();
    board.cells[4][1] = Cell::Player2;
    board.cells[4][2] = Cell::Player2;
    // (4, 3) stays empty; the mover's piece beyond it does not close the line.
    board.cells[4][4] = Cell::Player1;
    assert_eq!(scan_direction(&board, 4, 0, 0, 1, Color::Player1), 0);
    assert!(!is_legal(&board, 4, 0, Color::Player1));
}

#[test]
fn open_line_stays_when_another_line_is_captured() {
    let mut board = empty_board();
    // East of (2, 2): rivals up to the edge. South of it: one rival, then the mover.
    for c in 3..8 {
        board.cells[2][c] = Cell::Player2;
    }
    board.cells[3][2] = Cell::Player2;
    board.cells[4][2] = Cell::Player1;
    assert_eq!(
        is_legal_and_capture_set(&board, 2, 2, Color::Player1),
        Some(vec![(3, 2)])
    );
    assert_eq!(apply(&mut board, 2, 2, Color::Player1), Ok(()));
    for c in 3..8 {
        assert_eq!(board.cells[2][c], Cell::Player2);
    }
    assert_eq!(board.cells[3][2], Cell::Player1);
    assert_eq!(board.cells[2][2], Cell::Player1);
}

#[test]
fn own_piece_next_door_captures_nothing() {
    let mut board = empty_board();
    board.cells[5][5] = Cell::Player1;
    assert_eq!(scan_direction(&board, 5, 4, 0, 1, Color::Player1), 0);
    assert_eq!(is_legal_and_capture_set(&board, 5, 4, Color::Player1), None);
    assert_eq!(apply(&mut board, 5, 4, Color::Player1), Err(IllegalMove));
}

#[test]
fn scan_counts_the_bracketed_run() {
    let mut board = empty_board();
    for c in 1..7 {
        board.cells[6][c] = Cell::Player1;
    }
    board.cells[6][7] = Cell::Player2;
    assert_eq!(scan_direction(&board, 6, 0, 0, 1, Color::Player2), 6);
    assert_eq!(scan_direction(&board, 6, 0, 0, 1, Color::Player1), 0);
    assert_eq!(scan_direction(&board, 6, 0, 0, -1, Color::Player2), 0);
    assert_eq!(scan_direction(&board, 6, 0, 1, 0, Color::Player2), 0);
    let start = create_board();
    assert_eq!(scan_direction(&start, 2, 3, 1, 0, Color::Player1), 1);
    assert_eq!(scan_direction(&start, 2, 3, 1, 1, Color::Player1), 0);
    assert_eq!(scan_direction(&start, 5, 4, -1, 0, Color::Player1), 1);
}

#[test]
fn successful_move_adds_exactly_one_piece() {
    let mut board = create_board();
    let moves = [
        (2, 3, Color::Player1),
        (2, 2, Color::Player2),
        (3, 2, Color::Player1),
        (2, 4, Color::Player2),
    ];
    for (r, c, color) in moves {
        let before = occupied(&board);
        assert_eq!(apply(&mut board, r, c, color), Ok(()));
        assert_eq!(occupied(&board), before + 1);
    }
    assert_eq!(occupied(&board), 8);
}

#[test]
fn flips_come_from_the_board_before_the_move() {
    // After the new piece is down it would close a second line that was open
    // before; only the line bracketed beforehand is turned.
    let mut board = empty_board();
    board.cells[0][1] = Cell::Player2;
    board.cells[0][2] = Cell::Player1;
    board.cells[1][0] = Cell::Player2;
    assert_eq!(apply(&mut board, 0, 0, Color::Player1), Ok(()));
    assert_eq!(board.cells[0][0], Cell::Player1);
    assert_eq!(board.cells[0][1], Cell::Player1);
    assert_eq!(board.cells[1][0], Cell::Player2);
}

#[test]
fn no_move_on_a_board_without_empty_squares() {
    let mut board = Board { cells: [[Cell::Player1; 8]; 8] };
    for r in 0..8 {
        for c in 0..8 {
            if (r + c) % 3 == 0 {
                board.cells[r][c] = Cell::Player2;
            }
        }
    }
    assert!(!valid_move_exists(&board, Color::Player1));
    assert!(!valid_move_exists(&board, Color::Player2));
}

#[test]
fn moves_exist_on_the_starting_board() {
    let board = create_board();
    assert!(valid_move_exists(&board, Color::Player1));
    assert!(valid_move_exists(&board, Color::Player2));
}

#[test]
fn move_in_the_last_square_is_found() {
    let mut board = Board { cells: [[Cell::Player2; 8]; 8] };
    board.cells[7][7] = Cell::Empty;
    board.cells[7][0] = Cell::Player1;
    assert!(valid_move_exists(&board, Color::Player1));
    assert!(!valid_move_exists(&board, Color::Player2));
}

#[test]
fn decode_reads_row_then_column() {
    assert_eq!(decode_move("aa"), Some((0, 0)));
    assert_eq!(decode_move("cd"), Some((2, 3)));
    assert_eq!(decode_move("ha"), Some((7, 0)));
    assert_eq!(decode_move("hh"), Some((7, 7)));
}

#[test]
fn decode_refuses_what_names_no_square() {
    assert_eq!(decode_move(""), None);
    assert_eq!(decode_move("a"), None);
    assert_eq!(decode_move("abc"), None);
    assert_eq!(decode_move("ai"), None);
    assert_eq!(decode_move("ia"), None);
    assert_eq!(decode_move("A1"), None);
    assert_eq!(decode_move("CD"), None);
    assert_eq!(decode_move("a`"), None);
    assert_eq!(decode_move("3d"), None);
    assert_eq!(decode_move(" a"), None);
    assert_eq!(decode_move("\u{e9}a"), None);
}

#[test]
fn modify_board_plays_the_written_move() {
    let mut board = create_board();
    assert_eq!(modify_board(&mut board, "cd", Color::Player1), Ok(()));
    let mut expected = create_board();
    expected.cells[2][3] = Cell::Player1;
    expected.cells[3][3] = Cell::Player1;
    assert_eq!(board, expected);
}

#[test]
fn modify_board_refuses_bad_text_and_illegal_moves() {
    let mut board = create_board();
    for text in ["", "c", "cdx", "zz", "dd", "aa", "cd "] {
        assert_eq!(modify_board(&mut board, text, Color::Player1), Err(IllegalMove));
        assert_eq!(board, create_board());
    }
    // Legal for the first side only.
    assert_eq!(modify_board(&mut board, "cd", Color::Player2), Err(IllegalMove));
    assert_eq!(board, create_board());
}
