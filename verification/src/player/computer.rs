//! The computer player: it delegates every move to its strategy.

use vstd::prelude::*;

use crate::board::Board;
use crate::player::strategy::Strategy;
use crate::player::Player;
use crate::token::Token;

verus! {

#[derive(Debug, PartialEq)]
pub struct Computer<S> {
    pub token: Token,
    pub strategy: S,
}

impl<S: Strategy> Computer<S> {
    pub fn new(token: Token, strategy: S) -> (r: Computer<S>)
        ensures
            r.token == token,
            r.strategy == strategy,
    {
        Computer { token, strategy }
    }
}

impl<S: Strategy> Player for Computer<S> {
    open spec fn token_spec(&self) -> Token {
        self.token
    }

    open spec fn move_req(&self, board: &Board) -> bool {
        self.strategy.decide_req(board)
    }

    /// A computer player never fails: its proposal is an empty cell, and
    /// exactly what its strategy decides.
    open spec fn move_ens(&self, board: &Board, r: Result<usize, String>) -> bool {
        &&& r is Ok
        &&& board@[r->Ok_0 as int] is Empty
        &&& self.strategy.decide_ens(board, r->Ok_0)
    }

    fn get_token(&self) -> (r: &Token) {
        &self.token
    }

    /// A computer player never fails: it returns the move its strategy
    /// decides on, always an empty cell of the board.
    fn get_move(&mut self, board: &Board) -> (r: Result<usize, String>) {
        Ok(self.strategy.decide(board))
    }
}

} // verus!
