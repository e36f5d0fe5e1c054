//! The board as lines of text.

use vstd::prelude::*;
use vstd::string::StringExecFns;
use crate::board::{Board, Cell, Grid};

verus! {

/// The character that shows a cell.
pub open spec fn glyph(cell: Cell) -> char {
    match cell {
        Cell::Empty => '.',
        Cell::Player1 => 'B',
        Cell::Player2 => 'W',
    }
}

/// The letter that labels row or column `index`: `a` for 0, `h` for 7.
pub open spec fn label(index: int) -> char {
    ('a' as int + index) as char
}

/// The first line: two spaces, then the column labels.
pub open spec fn header_line() -> Seq<char> {
    Seq::new(
        10,
        |i: int|
            if i < 2 {
                ' '
            } else {
                label(i - 2)
            },
    )
}

/// The line for row `r`: its label, a space, then its eight cells.
pub open spec fn row_line(grid: Grid, r: int) -> Seq<char> {
    Seq::new(
        10,
        |i: int|
            if i == 0 {
                label(r)
            } else if i == 1 {
                ' '
            } else {
                glyph(grid[r][i - 2])
            },
    )
}

fn glyph_text(cell: Cell) -> (text: &'static str)
    ensures
        text@ == seq![glyph(cell)],
{
    proof {
        reveal_strlit(".");
        reveal_strlit("B");
        reveal_strlit("W");
    }
    let text = match cell {
        Cell::Empty => ".",
        Cell::Player1 => "B",
        Cell::Player2 => "W",
    };
    assert(text@ =~= seq![glyph(cell)]);
    text
}

fn label_text(index: usize) -> (text: &'static str)
    requires
        index < 8,
    ensures
        text@ == seq![label(index as int), ' '],
{
    proof {
        reveal_strlit("a ");
        reveal_strlit("b ");
        reveal_strlit("c ");
        reveal_strlit("d ");
        reveal_strlit("e ");
        reveal_strlit("f ");
        reveal_strlit("g ");
        reveal_strlit("h ");
    }
    let text = match index {
        0 => "a ",
        1 => "b ",
        2 => "c ",
        3 => "d ",
        4 => "e ",
        5 => "f ",
        6 => "g ",
        _ => "h ",
    };
    assert(text@ =~= seq![label(index as int), ' ']);
    text
}

/// Draws the board: a header with the column labels, then one line per row.
pub fn render_board(board: &Board) -> (lines: Vec<String>)
    ensures
        lines@.len() == 9,
        lines@[0]@ == header_line(),
        forall|r: int| 0 <= r < 8 ==> (#[trigger] lines@[r + 1])@ == row_line(board@, r),
{
    let mut lines: Vec<String> = Vec::new();
    let header = String::from_str("  abcdefgh");
    proof {
        reveal_strlit("  abcdefgh");
        assert(header@ =~= header_line());
    }
    lines.push(header);
    let mut row: usize = 0;
    while row < 8
        invariant
            row <= 8,
            lines@.len() == row + 1,
            lines@[0]@ == header_line(),
            forall|r: int| 0 <= r < row ==> (#[trigger] lines@[r + 1])@ == row_line(board@, r),
        decreases 8 - row,
    {
        let mut line = String::from_str(label_text(row));
        let mut col: usize = 0;
        while col < 8
            invariant
                row < 8,
                col <= 8,
                line@.len() == col + 2,
                forall|i: int| 0 <= i < col + 2 ==> line@[i] == row_line(board@, row as int)[i],
            decreases 8 - col,
        {
            line.append(glyph_text(board.cells[row][col]));
            col = col + 1;
        }
        assert(line@ =~= row_line(board@, row as int));
        lines.push(line);
        row = row + 1;
    }
    lines
}

} // verus!
