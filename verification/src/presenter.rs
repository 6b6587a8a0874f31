//! The plain presenter: a board rendered as text, each cell padded and
//! delimited, rows separated by a divider line.

use vstd::prelude::*;

use crate::board::Board;
use crate::token::{spec_to_str, Token};

verus! {

/// `size` dashes-segments joined by plus signs.
pub open spec fn spec_segments(n: int) -> Seq<char>
    decreases n,
{
    if n <= 1 {
        "---"@
    } else {
        spec_segments(n - 1) + "+---"@
    }
}

/// The divider between two rows, on its own line.
pub open spec fn spec_divider(size: int) -> Seq<char> {
    "\n"@ + spec_segments(size) + "\n"@
}

/// What follows cell `i`: a newline after the last cell, the divider at the
/// end of a row, a vertical bar inside a row.
pub open spec fn spec_cell_delimiter(size: int, i: int) -> Seq<char> {
    if i == size * size - 1 {
        "\n"@
    } else if i % size == size - 1 {
        spec_divider(size)
    } else {
        "|"@
    }
}

/// A cell's text, padded with one space on each side.
pub open spec fn spec_padded(cs: Seq<char>) -> Seq<char> {
    " "@ + cs + " "@
}

/// The rendering of the first `n` cells.
pub open spec fn spec_render_upto(s: Seq<Token>, size: int, n: int) -> Seq<char>
    decreases n,
{
    if n <= 0 {
        Seq::empty()
    } else {
        spec_render_upto(s, size, n - 1) + spec_padded(spec_to_str(s[n - 1]))
            + spec_cell_delimiter(size, n - 1)
    }
}

/// The whole board, rendered with each cell's token text.
pub open spec fn spec_render(s: Seq<Token>, size: int) -> Seq<char> {
    spec_render_upto(s, size, s.len() as int)
}

pub fn view(board: &Board) -> (r: String)
    requires
        board.wf(),
    ensures
        r@ == spec_render(board@, board.size as int),
{
    let mut board_display = String::new();
    let length = board.cells.len();
    let mut i: usize = 0;

    while i < length
        invariant
            board.wf(),
            length == board@.len(),
            i <= length,
            board_display@ == spec_render_upto(board@, board.size as int, i as int),
        decreases length - i,
    {
        let cell = board.cells[i];
        let token = cell.to_str();
        let delimiter = match_cell_delimiter(i, board);
        let padded = pad_sides(token);
        board_display.append(padded.as_str());
        board_display.append(delimiter.as_str());
        i += 1;
    }

    board_display
}

pub(crate) fn match_cell_delimiter(index: usize, board: &Board) -> (r: String)
    requires
        board.wf(),
        index < board@.len(),
    ensures
        r@ == spec_cell_delimiter(board.size as int, index as int),
{
    let length = board.cells.len();
    let size = board.get_row_size();
    let divider = generate_divider(board);
    let last_cell_index = size * size - 1;
    let row_end = size - 1;

    if index == last_cell_index {
        "\n".to_owned()
    } else if index % size == row_end {
        divider
    } else {
        "|".to_owned()
    }
}

pub(crate) fn generate_divider(board: &Board) -> (r: String)
    requires
        board.wf(),
    ensures
        r@ == spec_divider(board.size as int),
{
    let size = board.get_row_size();
    let mut r = "\n".to_owned();
    r.append("---");
    let mut j: usize = 1;
    while j < size
        invariant
            1 <= j <= size,
            r@ == "\n"@ + spec_segments(j as int),
        decreases size - j,
    {
        proof {
            assert(("\n"@ + spec_segments(j as int)) + "+---"@ =~= "\n"@ + (spec_segments(
                j as int,
            ) + "+---"@));
        }
        r.append("+---");
        j += 1;
    }
    r.append("\n");
    r
}

pub(crate) fn pad_sides(token: &str) -> (r: String)
    ensures
        r@ == spec_padded(token@),
{
    let mut r = " ".to_owned();
    r.append(token);
    r.append(" ");
    r
}

} // verus!
