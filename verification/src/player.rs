//! Players: the interface the game drives, and its human and computer
//! implementations.

pub mod computer;
pub mod human;
pub mod lazy;
pub mod minimax;
pub mod strategy;
pub mod unbeatable;

use vstd::prelude::*;

use crate::board::Board;
use crate::rules::spec_is_game_over;
use crate::token::Token;

verus! {

/// A participant in the game: it owns a token and proposes moves for it.
pub trait Player: Sized {
    /// The token this player places.
    spec fn token_spec(&self) -> Token;

    /// What this player needs of a position before it can move.
    spec fn move_req(&self, board: &Board) -> bool;

    /// What this player promises of its proposal, beyond the index being
    /// in range.
    spec fn move_ens(&self, board: &Board, r: Result<usize, String>) -> bool;

    fn get_token(&self) -> (r: &Token)
        ensures
            *r == self.token_spec(),
    ;

    /// Propose a move: a cell index into the board. `Ok` always carries an
    /// in-range index; whether the cell is free is the board's concern (an
    /// update aimed at an occupied cell is a no-op).
    fn get_move(&mut self, board: &Board) -> (r: Result<usize, String>)
        requires
            board.wf(),
            !spec_is_game_over(board@, board.size as nat),
            old(self).move_req(board),
        ensures
            r matches Ok(m) ==> m < board@.len(),
            final(self).token_spec() == old(self).token_spec(),
            old(self).move_ens(board, r),
    ;
}

} // verus!
