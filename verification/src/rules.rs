//! The rules: stateless win, draw and game-over checks over a board.

use vstd::prelude::*;

use crate::board::{empty_indices, lemma_empty_indices, lemma_grid_index, spec_line, Board};
use crate::token::Token;
use crate::token::Token::{Cross, Empty, Nought};

verus! {

/// Every cell of the line holds the given token.
pub open spec fn line_matches(l: Seq<Token>, t: Token) -> bool {
    forall|j: int| 0 <= j < l.len() ==> l[j] == t
}

/// Some line of the board's partition is filled with the given token.
pub open spec fn spec_win_for(s: Seq<Token>, size: nat, t: Token) -> bool {
    exists|i: int| 0 <= i < 2 * size + 2 && line_matches(#[trigger] spec_line(s, size, i), t)
}

pub open spec fn spec_is_won(s: Seq<Token>, size: nat) -> bool {
    spec_win_for(s, size, Cross) || spec_win_for(s, size, Nought)
}

pub open spec fn spec_has_empty(s: Seq<Token>) -> bool {
    exists|j: int| 0 <= j < s.len() && s[j] is Empty
}

pub open spec fn spec_is_draw(s: Seq<Token>, size: nat) -> bool {
    !spec_is_won(s, size) && !spec_has_empty(s)
}

pub open spec fn spec_is_game_over(s: Seq<Token>, size: nat) -> bool {
    spec_is_won(s, size) || spec_is_draw(s, size)
}

/// The winner: `Cross` if it holds a full line, else `Nought` if it does,
/// else `Empty`, which stands for "no winner" (draw or in progress).
pub open spec fn spec_winner(s: Seq<Token>, size: nat) -> Token {
    if spec_win_for(s, size, Cross) {
        Cross
    } else if spec_win_for(s, size, Nought) {
        Nought
    } else {
        Empty
    }
}

/// The flat index of position `j` of partition line `l`.
pub open spec fn line_pos(size: nat, l: int, j: int) -> int {
    if l < size {
        l * size + j
    } else if l < 2 * size {
        j * size + (l - size)
    } else if l == 2 * size {
        j * size + j
    } else {
        j * size + (size - 1 - j)
    }
}

/// Each position of a partition line is an in-range cell of the grid, and
/// the line reads the grid there.
pub proof fn lemma_line_index(s: Seq<Token>, size: nat, l: int, j: int)
    requires
        0 <= l < 2 * size + 2,
        0 <= j < size,
    ensures
        0 <= line_pos(size, l, j) < size * size,
        spec_line(s, size, l)[j] == s[line_pos(size, l, j)],
{
    if l < size {
        lemma_grid_index(size as int, l, j);
    } else if l < 2 * size {
        lemma_grid_index(size as int, j, l - size);
    } else if l == 2 * size {
        lemma_grid_index(size as int, j, j);
    } else {
        lemma_grid_index(size as int, j, size - 1 - j);
    }
}

/// A full line of `u` tokens survives any change that keeps every `u` cell
/// a `u` cell.
pub proof fn lemma_win_transfer(s1: Seq<Token>, s2: Seq<Token>, size: nat, u: Token)
    requires
        s1.len() == size * size,
        s2.len() == s1.len(),
        size >= 1,
        spec_win_for(s1, size, u),
        forall|p: int| 0 <= p < s1.len() && s1[p] == u ==> s2[p] == u,
    ensures
        spec_win_for(s2, size, u),
{
    let l = choose|l: int|
        0 <= l < 2 * size + 2 && line_matches(#[trigger] spec_line(s1, size, l), u);
    assert forall|j: int| 0 <= j < spec_line(s2, size, l).len() implies spec_line(s2, size, l)[j]
        == u by {
        lemma_line_index(s1, size, l, j);
        lemma_line_index(s2, size, l, j);
        assert(spec_line(s1, size, l)[j] == u);
    }
    assert(line_matches(spec_line(s2, size, l), u));
}

pub fn is_game_over(board: &Board) -> (r: bool)
    requires
        board.wf(),
    ensures
        r == spec_is_game_over(board@, board.size as nat),
{
    is_won(board) || is_draw(board)
}

pub fn get_winner(board: &Board) -> (r: Token)
    requires
        board.wf(),
    ensures
        r == spec_winner(board@, board.size as nat),
{
    if win_for(&Cross, board) {
        Cross
    } else if win_for(&Nought, board) {
        Nought
    } else {
        Empty
    }
}

pub fn is_won(board: &Board) -> (r: bool)
    requires
        board.wf(),
    ensures
        r == spec_is_won(board@, board.size as nat),
{
    win_for(&Cross, board) || win_for(&Nought, board)
}

pub fn is_draw(board: &Board) -> (r: bool)
    requires
        board.wf(),
    ensures
        r == spec_is_draw(board@, board.size as nat),
{
    let length = board.cells.len();
    let no_empty = board.empty_cells().is_empty();
    proof {
        assert(board@.len() == length);
        lemma_empty_indices(board@);
        if no_empty {
            assert(!spec_has_empty(board@)) by {
                assert forall|j: int| 0 <= j < board@.len() implies !(board@[j] is Empty) by {
                    if board@[j] is Empty {
                        assert(empty_indices(board@).contains(j as usize));
                    }
                }
            }
        } else {
            let k = 0int;
            assert(board@[empty_indices(board@)[k] as int] is Empty);
        }
    }
    !is_won(board) && no_empty
}

pub fn win_for(token: &Token, board: &Board) -> (r: bool)
    requires
        board.wf(),
    ensures
        r == spec_win_for(board@, board.size as nat, *token),
{
    let partition = board.partition();
    let count = partition.len();
    let mut i: usize = 0;
    while i < count
        invariant
            board.wf(),
            count == partition@.len(),
            count == 2 * board.size + 2,
            i <= count,
            forall|k: int|
                0 <= k < partition@.len() ==> #[trigger] partition@[k]@ == spec_line(
                    board@,
                    board.size as nat,
                    k,
                ),
            forall|k: int|
                0 <= k < i ==> !line_matches(
                    #[trigger] spec_line(board@, board.size as nat, k),
                    *token,
                ),
        decreases count - i,
    {
        if each_token_matches(&partition[i], token) {
            return true;
        }
        i += 1;
    }
    false
}

pub fn each_token_matches(line: &Vec<Token>, token: &Token) -> (r: bool)
    ensures
        r == line_matches(line@, *token),
{
    let count = line.len();
    let mut i: usize = 0;
    while i < count
        invariant
            count == line@.len(),
            i <= count,
            forall|k: int| 0 <= k < i ==> line@[k] == *token,
        decreases count - i,
    {
        if line[i] != *token {
            return false;
        }
        i += 1;
    }
    true
}

} // verus!
