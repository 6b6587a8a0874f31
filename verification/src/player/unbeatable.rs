//! The unbeatable strategy: exhaustive minimax search with alpha-beta
//! pruning. Its contract ties the search to the minimax model: the score it
//! returns is the game value, and the move it returns is the first empty
//! cell, in ascending index order, attaining that value.

use vstd::prelude::*;

use crate::board::{empty_indices, lemma_empty_indices, lemma_empty_indices_update, Board};
use crate::player::minimax::{
    best_move, best_value, decided_move, lemma_best_characterization, lemma_run_bound,
    lemma_value_bounds, move_value, mover, node_value, run_bound, spec_score, valid_move,
};
use crate::player::strategy::Strategy;
use crate::rules;
use crate::rules::{spec_has_empty, spec_is_game_over};
use crate::token::Token;
use crate::token::Token::{Cross, Nought};

verus! {

#[derive(Debug, PartialEq, Eq, Structural)]
pub struct Unbeatable {
    pub max: Token,
    pub min: Token,
}

/// The mark the strategy plays against: `Nought` for `Cross`, `Cross` for
/// anything else.
pub open spec fn spec_other_token(t: Token) -> Token {
    if t == Cross {
        Nought
    } else {
        Cross
    }
}

fn get_min_token(token: Token) -> (r: Token)
    ensures
        r == spec_other_token(token),
{
    match token == Cross {
        true => Nought,
        false => Cross,
    }
}

impl Unbeatable {
    pub fn new(token: Token) -> (r: Unbeatable)
        ensures
            r.max == token,
            r.min == spec_other_token(token),
    {
        Unbeatable { max: token, min: get_min_token(token) }
    }

    /// The terminal score of a position, as this strategy values it.
    pub fn score(&self, depth: i32, board: &Board) -> (r: i32)
        requires
            board.wf(),
            i32::MIN + 10 <= depth <= i32::MAX - 10,
        ensures
            r as int == spec_score(self.max, self.min, depth as int, board@, board.size as nat),
    {
        let winner = rules::get_winner(board);
        if winner == self.max {
            depth + 10
        } else if winner == self.min {
            -depth - 10
        } else {
            0
        }
    }

    fn current_token(&self, is_max: bool) -> (r: Token)
        ensures
            r == mover(self.max, self.min, is_max),
    {
        match is_max {
            true => self.max,
            false => self.min,
        }
    }

    /// Alpha-beta search below the window `(alpha, beta)`. On a finished
    /// game it returns the terminal score and the unused sentinel move `10`.
    /// Otherwise the score relates to the game value `v` as alpha-beta
    /// pruning promises — exact inside the window, clamped to the bound the
    /// value escapes past — and whenever `v` lies strictly inside the
    /// window, the move is the first empty cell attaining `v`.
    pub fn get_best_option(
        &self,
        depth: i32,
        alpha: i32,
        beta: i32,
        board: &Board,
        is_max: bool,
    ) -> (r: (i32, usize))
        requires
            board.wf(),
            alpha < beta,
            !(self.max is Empty),
            !(self.min is Empty),
            depth <= i32::MAX - 10,
            depth - empty_indices(board@).len() >= i32::MIN + 10,
        ensures
            ({
                let s = board@;
                let size = board.size as nat;
                let v = node_value(self.max, self.min, depth as int, s, size, is_max);
                let bm = best_move(
                    self.max,
                    self.min,
                    depth as int,
                    s,
                    size,
                    is_max,
                    empty_indices(s),
                );
                &&& spec_is_game_over(s, size) ==> r.0 as int == spec_score(
                    self.max,
                    self.min,
                    depth as int,
                    s,
                    size,
                ) && r.1 == 10
                &&& !spec_is_game_over(s, size) && is_max ==> {
                    &&& v <= alpha ==> r.0 == alpha
                    &&& alpha < v < beta ==> r.0 as int == v && r.1 == bm
                    &&& v >= beta ==> beta <= r.0 as int <= v
                }
                &&& !spec_is_game_over(s, size) && !is_max ==> {
                    &&& v >= beta ==> r.0 == beta
                    &&& alpha < v < beta ==> r.0 as int == v && r.1 == bm
                    &&& v <= alpha ==> v <= r.0 as int <= alpha
                }
            }),
        decreases empty_indices(board@).len(),
    {
        let ghost s = board@;
        let ghost size = board.size as nat;
        let ghost maxt = self.max;
        let ghost mint = self.min;
        let length = board.cells.len();

        let mut best_move_choice: usize = 10;
        let mut alpha = alpha;
        let mut beta = beta;
        let ghost a0 = alpha as int;
        let ghost b0 = beta as int;

        if rules::is_game_over(board) {
            let best_score = self.score(depth, board);
            return (best_score, best_move_choice);
        };

        proof {
            assert(s.len() == length);
            lemma_empty_indices(s);
        }
        let cands = board.empty_cells();
        proof {
            assert(empty_indices(s).take(empty_indices(s).len() as int) =~= empty_indices(s));
        }
        let count = cands.len();
        let ghost cs = empty_indices(s);
        let ghost v = node_value(maxt, mint, depth as int, s, size, is_max);

        let mut k: usize = 0;
        while k < count
            invariant_except_break
                board.wf(),
                s == board@,
                size == board.size as nat,
                maxt == self.max,
                mint == self.min,
                !(maxt is Empty),
                !(mint is Empty),
                length == s.len(),
                !spec_is_game_over(s, size),
                cs == empty_indices(s),
                cands@ == cs,
                count == cs.len(),
                cs.take(count as int) == cs,
                depth <= i32::MAX - 10,
                depth - cs.len() >= i32::MIN + 10,
                k <= count,
                alpha < beta,
                is_max ==> beta == b0 && (alpha as int, best_move_choice) == run_bound(
                    maxt,
                    mint,
                    depth as int,
                    s,
                    size,
                    is_max,
                    cs.take(k as int),
                    a0,
                    10,
                ),
                !is_max ==> alpha == a0 && (beta as int, best_move_choice) == run_bound(
                    maxt,
                    mint,
                    depth as int,
                    s,
                    size,
                    is_max,
                    cs.take(k as int),
                    b0,
                    10,
                ),
            ensures
                is_max ==> beta == b0,
                !is_max ==> alpha == a0,
                alpha < beta ==> k == count && (if is_max {
                    (alpha as int, best_move_choice) == run_bound(
                        maxt,
                        mint,
                        depth as int,
                        s,
                        size,
                        is_max,
                        cs,
                        a0,
                        10,
                    )
                } else {
                    (beta as int, best_move_choice) == run_bound(
                        maxt,
                        mint,
                        depth as int,
                        s,
                        size,
                        is_max,
                        cs,
                        b0,
                        10,
                    )
                }),
                alpha >= beta && is_max ==> exists|i: int|
                    0 <= i < cs.len() && alpha as int <= move_value(
                        maxt,
                        mint,
                        depth as int,
                        s,
                        size,
                        is_max,
                        #[trigger] cs[i],
                    ),
                alpha >= beta && !is_max ==> exists|i: int|
                    0 <= i < cs.len() && beta as int >= move_value(
                        maxt,
                        mint,
                        depth as int,
                        s,
                        size,
                        is_max,
                        #[trigger] cs[i],
                    ),
            decreases count - k,
        {
            let c = cands[k];
            let ghost tok = mover(maxt, mint, is_max);
            proof {
                lemma_empty_indices(s);
                assert(valid_move(s, tok, c));
                lemma_empty_indices_update(s, c as int, tok);
            }
            let token = self.current_token(is_max);
            let mock_board = board.clone().update(c, token);
            let child = self.get_best_option(depth - 1, alpha, beta, &mock_board, !is_max);
            let best_score = child.0;

            let ghost h = move_value(maxt, mint, depth as int, s, size, is_max, c);
            proof {
                assert(mock_board@ == s.update(c as int, tok));
                assert(h == node_value(maxt, mint, depth as int - 1, mock_board@, size, !is_max));
                assert(h <= alpha ==> h <= best_score as int <= alpha as int);
                assert(alpha < h < beta ==> best_score as int == h);
                assert(h >= beta ==> beta as int <= best_score as int <= h);
            }

            if is_max && alpha < best_score {
                alpha = best_score;
                best_move_choice = c;
            }
            if !is_max && beta > best_score {
                beta = best_score;
                best_move_choice = c;
            }
            proof {
                assert(cs.take(k as int + 1).drop_last() =~= cs.take(k as int));
                assert(cs.take(k as int + 1).last() == cs[k as int]);
            }
            k += 1;
            if alpha >= beta {
                proof {
                    assert(0 <= k - 1 < cs.len() && cs[k as int - 1] == c);
                }
                break;
            }
        }

        proof {
            assert(cs.take(count as int) =~= cs);
            assert(cs.len() >= 1) by {
                lemma_empty_indices(s);
                assert(spec_has_empty(s));
                let j = choose|j: int| 0 <= j < s.len() && s[j] is Empty;
                assert(cs.contains(j as usize));
            }
            let bv = best_value(maxt, mint, depth as int, s, size, is_max, cs);
            let bm = best_move(maxt, mint, depth as int, s, size, is_max, cs);
            assert(v == bv);
            let kw = lemma_best_characterization(maxt, mint, depth as int, s, size, is_max, cs);
            if alpha < beta {
                if is_max {
                    lemma_run_bound(maxt, mint, depth as int, s, size, is_max, cs, a0, 10);
                } else {
                    lemma_run_bound(maxt, mint, depth as int, s, size, is_max, cs, b0, 10);
                }
            }
        }

        let best_score = match is_max {
            true => alpha,
            false => beta,
        };

        (best_score, best_move_choice)
    }
}

impl Strategy for Unbeatable {
    open spec fn decide_req(&self, board: &Board) -> bool {
        &&& !(self.max is Empty)
        &&& !(self.min is Empty)
        &&& board@.len() + 10 <= i32::MAX
    }

    open spec fn decide_ens(&self, board: &Board, r: usize) -> bool {
        r == decided_move(self.max, self.min, board@, board.size as nat)
    }

    /// The decided move: an exhaustive search over the whole game tree, with
    /// the number of empty cells as the starting depth term, under the full
    /// search window.
    fn decide(&self, board: &Board) -> (r: usize) {
        let ghost s = board@;
        let ghost size = board.size as nat;
        let length = board.cells.len();
        proof {
            assert(s.len() == length);
            lemma_empty_indices(s);
        }
        let depth = board.empty_cells().len() as i32;
        proof {
            assert(empty_indices(s).len() <= length);
            assert(depth as int == empty_indices(s).len());
            lemma_value_bounds(self.max, self.min, depth as int, s, size, true);
            assert(i32::MIN < node_value(self.max, self.min, depth as int, s, size, true)
                < i32::MAX);
        }
        let choice = self.get_best_option(depth, i32::MIN, i32::MAX, board, true);
        proof {
            let kw = lemma_best_characterization(
                self.max,
                self.min,
                depth as int,
                s,
                size,
                true,
                empty_indices(s),
            );
        }
        choice.1
    }
}

} // verus!
