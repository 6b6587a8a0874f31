//! The colored presenter: like the plain one, but an empty cell shows its
//! 1-based number, passed through the given color.

use vstd::prelude::*;

use crate::board::Board;
use crate::presenter::{match_cell_delimiter, pad_sides, spec_cell_delimiter, spec_padded};
use crate::token::{spec_to_str, Token};
use crate::ui::color::{spec_fill, Color};

verus! {

/// One decimal digit as text.
pub open spec fn spec_digit(d: int) -> Seq<char> {
    if d == 0 {
        "0"@
    } else if d == 1 {
        "1"@
    } else if d == 2 {
        "2"@
    } else if d == 3 {
        "3"@
    } else if d == 4 {
        "4"@
    } else if d == 5 {
        "5"@
    } else if d == 6 {
        "6"@
    } else if d == 7 {
        "7"@
    } else if d == 8 {
        "8"@
    } else {
        "9"@
    }
}

/// A number as decimal text, most significant digit first.
pub open spec fn spec_digits(n: int) -> Seq<char>
    decreases n,
{
    if n < 10 {
        spec_digit(n)
    } else {
        spec_digits(n / 10) + spec_digit(n % 10)
    }
}

/// A cell's display text: its token, or — when it is empty — its 1-based
/// number, colored.
pub open spec fn spec_determine(index: int, cell: Token, c: Color) -> Seq<char> {
    if cell is Empty {
        spec_fill(c, spec_digits(index + 1))
    } else {
        spec_to_str(cell)
    }
}

/// The rendering of the first `n` cells, with colored numbers on the empty
/// ones.
pub open spec fn spec_render_upto(s: Seq<Token>, size: int, n: int, c: Color) -> Seq<char>
    decreases n,
{
    if n <= 0 {
        Seq::empty()
    } else {
        spec_render_upto(s, size, n - 1, c) + spec_padded(spec_determine(n - 1, s[n - 1], c))
            + spec_cell_delimiter(size, n - 1)
    }
}

/// The whole board, rendered with colored numbers on the empty cells.
pub open spec fn spec_render(s: Seq<Token>, size: int, c: Color) -> Seq<char> {
    spec_render_upto(s, size, s.len() as int, c)
}

fn digit_str(d: usize) -> (r: &'static str)
    requires
        d < 10,
    ensures
        r@ == spec_digit(d as int),
{
    match d {
        0 => "0",
        1 => "1",
        2 => "2",
        3 => "3",
        4 => "4",
        5 => "5",
        6 => "6",
        7 => "7",
        8 => "8",
        _ => "9",
    }
}

fn usize_to_string(n: usize) -> (r: String)
    ensures
        r@ == spec_digits(n as int),
    decreases n,
{
    if n < 10 {
        digit_str(n).to_owned()
    } else {
        let mut r = usize_to_string(n / 10);
        r.append(digit_str(n % 10));
        r
    }
}

fn determine_token(index: usize, cell: &Token, color: &Color) -> (r: String)
    requires
        index < usize::MAX,
    ensures
        r@ == spec_determine(index as int, *cell, *color),
{
    match cell {
        Token::Empty => color.fill(usize_to_string(index + 1).as_str()),
        _ => cell.to_str().to_owned(),
    }
}

pub fn view(board: &Board, color: &Color) -> (r: String)
    requires
        board.wf(),
    ensures
        r@ == spec_render(board@, board.size as int, *color),
{
    let mut board_display = String::new();
    let length = board.cells.len();
    let mut i: usize = 0;

    while i < length
        invariant
            board.wf(),
            length == board@.len(),
            i <= length,
            board_display@ == spec_render_upto(board@, board.size as int, i as int, *color),
        decreases length - i,
    {
        let cell = board.cells[i];
        let token = determine_token(i, &cell, color);
        let delimiter = match_cell_delimiter(i, board);
        let padded = pad_sides(token.as_str());
        board_display.append(padded.as_str());
        board_display.append(delimiter.as_str());
        i += 1;
    }

    board_display
}

} // verus!
