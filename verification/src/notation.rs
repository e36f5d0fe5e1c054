//! Moves as players write them: two letters, row first, `a` to `h` each.

use vstd::prelude::*;
use vstd::string::StrSliceExecFns;

verus! {

/// Whether `ch` is one of the letters `a` to `h` that label rows and columns.
pub open spec fn is_label(ch: char) -> bool {
    'a' <= ch <= 'h'
}

/// The index that a label stands for: 0 for `a`, 7 for `h`.
pub open spec fn label_index(ch: char) -> int {
    ch as int - 'a' as int
}

/// The square that `text` names, if it is two labels and nothing else.
pub open spec fn decoded(text: Seq<char>) -> Option<(usize, usize)> {
    if text.len() == 2 && is_label(text[0]) && is_label(text[1]) {
        Some((label_index(text[0]) as usize, label_index(text[1]) as usize))
    } else {
        None
    }
}

/// Reads one label.
fn decode_label(ch: char) -> (index: Option<usize>)
    ensures
        index is Some <==> is_label(ch),
        index matches Some(i) ==> i == label_index(ch) && i < 8,
{
    if 'a' <= ch && ch <= 'h' {
        Some((ch as u8 - 97u8) as usize)
    } else {
        None
    }
}

/// Reads a move: the row's label, then the column's. Anything else names no
/// square.
pub fn decode_move(user_move: &str) -> (square: Option<(usize, usize)>)
    ensures
        square == decoded(user_move@),
        square matches Some((row, col)) ==> row < 8 && col < 8,
{
    if user_move.unicode_len() != 2 {
        return None;
    }
    match (decode_label(user_move.get_char(0)), decode_label(user_move.get_char(1))) {
        (Some(row), Some(col)) => Some((row, col)),
        _ => None,
    }
}

} // verus!
