//! The strategy interface: how a computer player picks its move.

use vstd::prelude::*;

use crate::board::Board;
use crate::rules::spec_is_game_over;

verus! {

/// A move-selection strategy: given a board on which the game is not over,
/// it names an empty cell to play.
pub trait Strategy: Sized {
    /// What this strategy needs of a position before it can decide.
    spec fn decide_req(&self, board: &Board) -> bool;

    /// What this strategy promises of the decided move, beyond it being an
    /// empty cell.
    spec fn decide_ens(&self, board: &Board, r: usize) -> bool;

    fn decide(&self, board: &Board) -> (r: usize)
        requires
            board.wf(),
            !spec_is_game_over(board@, board.size as nat),
            self.decide_req(board),
        ensures
            r < board@.len(),
            board@[r as int] is Empty,
            self.decide_ens(board, r),
    ;
}

} // verus!
