//! The game: a turn-sequencing state machine driving two players against a
//! board. Whose turn it is follows from the parity of the number of empty
//! cells, so the first player always moves first.

use vstd::prelude::*;

use crate::board::{empty_indices, Board};
use crate::player::Player;
use crate::rules;
use crate::rules::{spec_is_game_over, spec_winner};
use crate::token::Token;

verus! {

#[derive(Debug, PartialEq, Eq, Structural)]
pub enum GameState {
    InProgress,
    Over,
}

pub struct Game<P1, P2> {
    pub board: Board,
    pub player_one: P1,
    pub player_two: P2,
    pub state: GameState,
}

/// The first player acts while the count of empty cells is odd; on a board
/// of odd length that makes the first player open the game.
pub open spec fn spec_is_odd_turn(s: Seq<Token>) -> bool {
    empty_indices(s).len() % 2 == 1
}

/// What one turn may do to the cells: leave them alone (a failed proposal,
/// or a move onto an occupied cell), or fill exactly one empty cell with the
/// token whose turn it was.
pub open spec fn spec_turn_applied(pre: Seq<Token>, post: Seq<Token>, tok: Token) -> bool {
    ||| post == pre
    ||| exists|m: int| 0 <= m < pre.len() && pre[m] is Empty && post == pre.update(m, tok)
}

/// How a proposal lands on the board: a failed proposal changes nothing, an
/// accepted one fills its cell if that cell is empty and changes nothing
/// otherwise.
pub open spec fn spec_move_applied(
    pre: Seq<Token>,
    post: Seq<Token>,
    tok: Token,
    r: Result<usize, String>,
) -> bool {
    match r {
        Ok(m) => (m as int) < pre.len() && post == (if pre[m as int] is Empty {
            pre.update(m as int, tok)
        } else {
            pre
        }),
        Err(_) => post == pre,
    }
}

/// The token of the player whose turn it is.
pub open spec fn spec_turn_token<P1: Player, P2: Player>(g: &Game<P1, P2>) -> Token {
    if spec_is_odd_turn(g.board@) {
        g.player_one.token_spec()
    } else {
        g.player_two.token_spec()
    }
}

/// What the player whose turn it is promises of a proposal it makes.
pub open spec fn spec_proposal_ens<P1: Player, P2: Player>(
    g: &Game<P1, P2>,
    r: Result<usize, String>,
) -> bool {
    if spec_is_odd_turn(g.board@) {
        g.player_one.move_ens(&g.board, r)
    } else {
        g.player_two.move_ens(&g.board, r)
    }
}

impl<P1: Player, P2: Player> Game<P1, P2> {
    pub fn new(board: Board, player_one: P1, player_two: P2) -> (r: Game<P1, P2>)
        ensures
            r.board == board,
            r.player_one == player_one,
            r.player_two == player_two,
            r.state == GameState::InProgress,
    {
        Game { board, player_one, player_two, state: GameState::InProgress }
    }

    pub fn get_board(&self) -> (r: &Board)
        ensures
            r == &self.board,
    {
        &self.board
    }

    pub fn get_state(&self) -> (r: &GameState)
        ensures
            r == &self.state,
    {
        &self.state
    }

    pub fn get_winner(&self) -> (r: Token)
        requires
            self.board.wf(),
        ensures
            r == spec_winner(self.board@, self.board.size as nat),
    {
        rules::get_winner(&self.board)
    }

    /// One turn: the current player proposes a move; a proposed move is
    /// applied to the board (a move onto an occupied cell changes nothing),
    /// a failed proposal leaves the board as it is; either way the turn is
    /// consumed, and the game is over the instant the rules say so.
    pub fn next_turn(&mut self)
        requires
            old(self).board.wf(),
            !spec_is_game_over(old(self).board@, old(self).board.size as nat),
            spec_is_odd_turn(old(self).board@) ==> old(self).player_one.move_req(
                &old(self).board,
            ),
            !spec_is_odd_turn(old(self).board@) ==> old(self).player_two.move_req(
                &old(self).board,
            ),
        ensures
            final(self).board.wf(),
            final(self).board.size == old(self).board.size,
            spec_turn_applied(
                old(self).board@,
                final(self).board@,
                if spec_is_odd_turn(old(self).board@) {
                    old(self).player_one.token_spec()
                } else {
                    old(self).player_two.token_spec()
                },
            ),
            exists|r: Result<usize, String>|
                spec_proposal_ens(old(self), r) && #[trigger] spec_move_applied(
                    old(self).board@,
                    final(self).board@,
                    spec_turn_token(old(self)),
                    r,
                ),
            final(self).state == (if spec_is_game_over(
                final(self).board@,
                final(self).board.size as nat,
            ) {
                GameState::Over
            } else {
                old(self).state
            }),
    {
        let ghost old_board = self.board@;
        let ghost tok = if spec_is_odd_turn(self.board@) {
            self.player_one.token_spec()
        } else {
            self.player_two.token_spec()
        };
        let token = self.current_player_token();
        let move_choice = self.current_player_move();
        let cells = self.board.clone();

        self.board = match move_choice {
            Ok(num) => cells.update(num, token),
            Err(_) => cells,
        };

        proof {
            if move_choice is Ok {
                let num = move_choice->Ok_0;
                if old_board[num as int] is Empty {
                    assert(0 <= num < old_board.len() && old_board[num as int] is Empty
                        && self.board@ == old_board.update(num as int, tok));
                    assert(exists|m: int|
                        0 <= m < old_board.len() && old_board[m] is Empty && self.board@
                            == old_board.update(m, tok));
                } else {
                    assert(self.board@ == old_board);
                }
            } else {
                assert(self.board@ == old_board);
            }
            assert(spec_turn_applied(old_board, self.board@, tok));
            assert(spec_move_applied(old_board, self.board@, tok, move_choice));
        }

        self.update_state();
    }

    pub fn current_player_token(&self) -> (r: Token)
        ensures
            r == (if spec_is_odd_turn(self.board@) {
                self.player_one.token_spec()
            } else {
                self.player_two.token_spec()
            }),
    {
        match self.is_odd_turn() {
            true => *self.player_one.get_token(),
            false => *self.player_two.get_token(),
        }
    }

    fn current_player_move(&mut self) -> (r: Result<usize, String>)
        requires
            old(self).board.wf(),
            !spec_is_game_over(old(self).board@, old(self).board.size as nat),
            spec_is_odd_turn(old(self).board@) ==> old(self).player_one.move_req(
                &old(self).board,
            ),
            !spec_is_odd_turn(old(self).board@) ==> old(self).player_two.move_req(
                &old(self).board,
            ),
        ensures
            r matches Ok(m) ==> m < old(self).board@.len(),
            final(self).board == old(self).board,
            final(self).state == old(self).state,
            spec_is_odd_turn(old(self).board@) ==> old(self).player_one.move_ens(
                &old(self).board,
                r,
            ),
            !spec_is_odd_turn(old(self).board@) ==> old(self).player_two.move_ens(
                &old(self).board,
                r,
            ),
    {
        match self.is_odd_turn() {
            true => self.player_one.get_move(&self.board),
            false => self.player_two.get_move(&self.board),
        }
    }

    fn is_odd_turn(&self) -> (r: bool)
        ensures
            r == spec_is_odd_turn(self.board@),
    {
        let number_empty_cells = self.board.empty_cells().len();
        number_empty_cells % 2 != 0
    }

    fn update_state(&mut self)
        requires
            old(self).board.wf(),
        ensures
            final(self).board == old(self).board,
            final(self).player_one == old(self).player_one,
            final(self).player_two == old(self).player_two,
            final(self).state == (if spec_is_game_over(
                old(self).board@,
                old(self).board.size as nat,
            ) {
                GameState::Over
            } else {
                old(self).state
            }),
    {
        if rules::is_game_over(&self.board) {
            self.state = GameState::Over;
        }
    }
}

} // verus!
