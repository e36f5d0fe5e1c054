//! The grid of squares and the two colors that play on it.

use vstd::prelude::*;

verus! {

/// One of the two sides. A side is never "nobody": an unoccupied square is a
/// state of a [`Cell`], not of a `Color`.
#[derive(Clone, Copy, Debug, PartialEq, Eq, Structural)]
pub enum Color {
    Player1,
    Player2,
}

/// What a square of the board holds.
#[derive(Clone, Copy, Debug, PartialEq, Eq, Structural)]
pub enum Cell {
    Empty,
    Player1,
    Player2,
}

/// The board as a mathematical object: eight rows of eight cells.
pub type Grid = Seq<Seq<Cell>>;

impl Color {
    /// The other side.
    pub open spec fn spec_opponent(self) -> Color {
        match self {
            Color::Player1 => Color::Player2,
            Color::Player2 => Color::Player1,
        }
    }

    /// The state of a square that holds a piece of this side.
    pub open spec fn spec_cell(self) -> Cell {
        match self {
            Color::Player1 => Cell::Player1,
            Color::Player2 => Cell::Player2,
        }
    }

    /// The other side.
    #[verifier::when_used_as_spec(spec_opponent)]
    pub fn opponent(self) -> (other: Color)
        ensures
            other == self.spec_opponent(),
    {
        match self {
            Color::Player1 => Color::Player2,
            Color::Player2 => Color::Player1,
        }
    }

    /// The state of a square that holds a piece of this side; never `Empty`.
    #[verifier::when_used_as_spec(spec_cell)]
    pub fn cell(self) -> (cell: Cell)
        ensures
            cell == self.spec_cell(),
            cell != Cell::Empty,
    {
        match self {
            Color::Player1 => Cell::Player1,
            Color::Player2 => Cell::Player2,
        }
    }
}

/// Whether `(r, c)` names a square of the board.
pub open spec fn on_board(r: int, c: int) -> bool {
    0 <= r < 8 && 0 <= c < 8
}

/// An 8×8 board, stored row by row. Every arrangement of cells is a board.
#[derive(Clone, Copy, Debug, PartialEq, Eq)]
pub struct Board {
    pub cells: [[Cell; 8]; 8],
}

impl View for Board {
    type V = Grid;

    open spec fn view(&self) -> Grid {
        Seq::new(8, |r: int| self.cells[r]@)
    }
}

/// The grid before the first move: empty but for the four centre squares,
/// where each side holds one diagonal.
pub open spec fn starting_grid() -> Grid {
    Seq::new(
        8,
        |r: int|
            Seq::new(
                8,
                |c: int|
                    if (r == 3 && c == 3) || (r == 4 && c == 4) {
                        Cell::Player2
                    } else if (r == 3 && c == 4) || (r == 4 && c == 3) {
                        Cell::Player1
                    } else {
                        Cell::Empty
                    },
            ),
    )
}

/// Sets up the board for a new game.
pub fn create_board() -> (board: Board)
    ensures
        board@ == starting_grid(),
{
    let mut board = Board { cells: [[Cell::Empty; 8]; 8] };
    board.cells[3][3] = Cell::Player2;
    board.cells[3][4] = Cell::Player1;
    board.cells[4][3] = Cell::Player1;
    board.cells[4][4] = Cell::Player2;
    assert(board@ =~~= starting_grid());
    board
}

} // verus!
