//! The mathematical model of the search: the game value of a position under
//! exhaustive minimax play, the value of each candidate move, and the move
//! an exhaustive search with ascending-index tie-breaking settles on.

use vstd::prelude::*;

use crate::board::{empty_indices, lemma_empty_indices, lemma_empty_indices_update};
use crate::rules::{
    lemma_win_transfer, spec_has_empty, spec_is_game_over, spec_is_won, spec_win_for, spec_winner,
};
use crate::token::Token;

verus! {

/// The terminal score: a win for `maxt` is worth `depth + 10`, a win for
/// `mint` is worth `-depth - 10`, anything else (a draw) is worth `0`.
/// Greater remaining depth means an earlier, and therefore better, win.
pub open spec fn spec_score(maxt: Token, mint: Token, depth: int, s: Seq<Token>, size: nat) -> int {
    let w = spec_winner(s, size);
    if w == maxt {
        depth + 10
    } else if w == mint {
        -depth - 10
    } else {
        0
    }
}

/// The token placed next: the strategy's own mark on maximizing turns, the
/// opponent's on minimizing turns.
pub open spec fn mover(maxt: Token, mint: Token, is_max: bool) -> Token {
    if is_max {
        maxt
    } else {
        mint
    }
}

/// A playable move: a mark placed on an empty cell of the board.
pub open spec fn valid_move(s: Seq<Token>, t: Token, c: usize) -> bool {
    c < s.len() && s[c as int] is Empty && !(t is Empty)
}

pub open spec fn all_valid_moves(s: Seq<Token>, t: Token, cands: Seq<usize>) -> bool {
    forall|k: int| 0 <= k < cands.len() ==> valid_move(s, t, #[trigger] cands[k])
}

/// The game value of a position: the terminal score at a finished game, and
/// otherwise the best value among the moves open to the player whose turn it
/// is — the greatest for the maximizing player, the least for the minimizing
/// player.
pub open spec fn node_value(
    maxt: Token,
    mint: Token,
    depth: int,
    s: Seq<Token>,
    size: nat,
    is_max: bool,
) -> int
    decreases empty_indices(s).len() as int, empty_indices(s).len() as int + 1,
{
    if spec_is_game_over(s, size) {
        spec_score(maxt, mint, depth, s, size)
    } else {
        best_value(maxt, mint, depth, s, size, is_max, empty_indices(s))
    }
}

/// The value of one candidate move: the game value of the board after the
/// player to move fills that cell.
pub open spec fn move_value(
    maxt: Token,
    mint: Token,
    depth: int,
    s: Seq<Token>,
    size: nat,
    is_max: bool,
    c: usize,
) -> int
    decreases empty_indices(s).len() as int, 0int,
    via move_value_decreases
{
    if valid_move(s, mover(maxt, mint, is_max), c) {
        node_value(
            maxt,
            mint,
            depth - 1,
            s.update(c as int, mover(maxt, mint, is_max)),
            size,
            !is_max,
        )
    } else {
        0
    }
}

#[via_fn]
proof fn move_value_decreases(
    maxt: Token,
    mint: Token,
    depth: int,
    s: Seq<Token>,
    size: nat,
    is_max: bool,
    c: usize,
) {
    if valid_move(s, mover(maxt, mint, is_max), c) {
        lemma_empty_indices_update(s, c as int, mover(maxt, mint, is_max));
    }
}

/// The best value among the candidate moves.
pub open spec fn best_value(
    maxt: Token,
    mint: Token,
    depth: int,
    s: Seq<Token>,
    size: nat,
    is_max: bool,
    cands: Seq<usize>,
) -> int
    decreases empty_indices(s).len() as int, cands.len() as int,
{
    if cands.len() == 0 {
        0
    } else {
        let h = move_value(maxt, mint, depth, s, size, is_max, cands.last());
        if cands.len() == 1 {
            h
        } else {
            let rest = best_value(maxt, mint, depth, s, size, is_max, cands.drop_last());
            if is_max {
                if h > rest {
                    h
                } else {
                    rest
                }
            } else {
                if h < rest {
                    h
                } else {
                    rest
                }
            }
        }
    }
}

/// The move the search settles on among the candidates: the first one, in
/// candidate order, whose value strictly improves on everything before it —
/// that is, the earliest candidate attaining the best value. On an empty
/// candidate list the unused sentinel `10` comes back.
pub open spec fn best_move(
    maxt: Token,
    mint: Token,
    depth: int,
    s: Seq<Token>,
    size: nat,
    is_max: bool,
    cands: Seq<usize>,
) -> usize
    decreases empty_indices(s).len() as int, cands.len() as int,
{
    if cands.len() == 0 {
        10
    } else if cands.len() == 1 {
        cands.last()
    } else {
        let h = move_value(maxt, mint, depth, s, size, is_max, cands.last());
        let rest = best_value(maxt, mint, depth, s, size, is_max, cands.drop_last());
        if (is_max && h > rest) || (!is_max && h < rest) {
            cands.last()
        } else {
            best_move(maxt, mint, depth, s, size, is_max, cands.drop_last())
        }
    }
}

/// One bound-improving pass over the candidates, starting from the bound
/// `a0` and the move `m0`: the fold the pruning search performs when no
/// cutoff fires.
pub open spec fn run_bound(
    maxt: Token,
    mint: Token,
    depth: int,
    s: Seq<Token>,
    size: nat,
    is_max: bool,
    cands: Seq<usize>,
    a0: int,
    m0: usize,
) -> (int, usize)
    decreases empty_indices(s).len() as int, cands.len() as int,
{
    if cands.len() == 0 {
        (a0, m0)
    } else {
        let (a, m) = run_bound(maxt, mint, depth, s, size, is_max, cands.drop_last(), a0, m0);
        let h = move_value(maxt, mint, depth, s, size, is_max, cands.last());
        if (is_max && h > a) || (!is_max && h < a) {
            (h, cands.last())
        } else {
            (a, m)
        }
    }
}

/// The move the unbeatable strategy decides on from a given position: the
/// first empty cell, in ascending index order, attaining the game value.
pub open spec fn decided_move(maxt: Token, mint: Token, s: Seq<Token>, size: nat) -> usize {
    best_move(
        maxt,
        mint,
        empty_indices(s).len() as int,
        s,
        size,
        true,
        empty_indices(s),
    )
}

/// One bound-improving pass computes the best value and the best move, as
/// soon as the best value beats the starting bound; otherwise it returns the
/// starting bound and move untouched.
pub proof fn lemma_run_bound(
    maxt: Token,
    mint: Token,
    depth: int,
    s: Seq<Token>,
    size: nat,
    is_max: bool,
    cands: Seq<usize>,
    a0: int,
    m0: usize,
)
    requires
        cands.len() >= 1,
    ensures
        ({
            let (a, m) = run_bound(maxt, mint, depth, s, size, is_max, cands, a0, m0);
            let bv = best_value(maxt, mint, depth, s, size, is_max, cands);
            let bm = best_move(maxt, mint, depth, s, size, is_max, cands);
            if is_max {
                if bv > a0 {
                    a == bv && m == bm
                } else {
                    a == a0 && m == m0
                }
            } else {
                if bv < a0 {
                    a == bv && m == bm
                } else {
                    a == a0 && m == m0
                }
            }
        }),
    decreases cands.len(),
{
    if cands.len() > 1 {
        lemma_run_bound(maxt, mint, depth, s, size, is_max, cands.drop_last(), a0, m0);
    } else {
        assert(run_bound(maxt, mint, depth, s, size, is_max, cands.drop_last(), a0, m0) == (
            a0,
            m0,
        ));
    }
}

/// The game value of a position lies within `depth + 10` of zero, and
/// strictly within it while the game is not over.
pub proof fn lemma_value_bounds(
    maxt: Token,
    mint: Token,
    depth: int,
    s: Seq<Token>,
    size: nat,
    is_max: bool,
)
    requires
        s.len() <= usize::MAX,
        !(maxt is Empty),
        !(mint is Empty),
        depth >= empty_indices(s).len(),
    ensures
        -(depth + 10) <= node_value(maxt, mint, depth, s, size, is_max) <= depth + 10,
        !spec_is_game_over(s, size) ==> -(depth + 9) <= node_value(maxt, mint, depth, s, size, is_max)
            <= depth + 9,
    decreases empty_indices(s).len() as int, empty_indices(s).len() as int + 1,
{
    if !spec_is_game_over(s, size) {
        lemma_empty_indices(s);
        assert(spec_has_empty(s));
        let j = choose|j: int| 0 <= j < s.len() && s[j] is Empty;
        assert(empty_indices(s).contains(j as usize));
        assert(all_valid_moves(s, mover(maxt, mint, is_max), empty_indices(s)));
        lemma_best_value_bounds(maxt, mint, depth, s, size, is_max, empty_indices(s));
    }
}

proof fn lemma_best_value_bounds(
    maxt: Token,
    mint: Token,
    depth: int,
    s: Seq<Token>,
    size: nat,
    is_max: bool,
    cands: Seq<usize>,
)
    requires
        s.len() <= usize::MAX,
        !(maxt is Empty),
        !(mint is Empty),
        depth >= empty_indices(s).len(),
        cands.len() >= 1,
        all_valid_moves(s, mover(maxt, mint, is_max), cands),
    ensures
        -(depth + 9) <= best_value(maxt, mint, depth, s, size, is_max, cands) <= depth + 9,
    decreases empty_indices(s).len() as int, cands.len() as int,
{
    let tok = mover(maxt, mint, is_max);
    let c = cands.last();
    assert(valid_move(s, tok, c));
    lemma_empty_indices_update(s, c as int, tok);
    lemma_value_bounds(maxt, mint, depth - 1, s.update(c as int, tok), size, !is_max);
    assert(move_value(maxt, mint, depth, s, size, is_max, c) == node_value(
        maxt,
        mint,
        depth - 1,
        s.update(c as int, tok),
        size,
        !is_max,
    ));
    if cands.len() > 1 {
        assert(all_valid_moves(s, tok, cands.drop_last())) by {
            assert(forall|k: int|
                0 <= k < cands.len() - 1 ==> cands.drop_last()[k] == cands[k]);
        }
        lemma_best_value_bounds(maxt, mint, depth, s, size, is_max, cands.drop_last());
    } else {
        assert(best_value(maxt, mint, depth, s, size, is_max, cands) == move_value(
            maxt,
            mint,
            depth,
            s,
            size,
            is_max,
            c,
        ));
    }
}

/// `best_value` is attained, `best_move` attains it first: there is an index
/// `k` of the candidate list holding the chosen move, whose value is the
/// best value, such that every earlier candidate does strictly worse and no
/// candidate does better.
pub proof fn lemma_best_characterization(
    maxt: Token,
    mint: Token,
    depth: int,
    s: Seq<Token>,
    size: nat,
    is_max: bool,
    cands: Seq<usize>,
) -> (k: int)
    requires
        cands.len() >= 1,
    ensures
        0 <= k < cands.len(),
        cands[k] == best_move(maxt, mint, depth, s, size, is_max, cands),
        move_value(maxt, mint, depth, s, size, is_max, cands[k]) == best_value(
            maxt,
            mint,
            depth,
            s,
            size,
            is_max,
            cands,
        ),
        forall|i: int|
            0 <= i < k ==> (if is_max {
                move_value(maxt, mint, depth, s, size, is_max, #[trigger] cands[i]) < best_value(
                    maxt,
                    mint,
                    depth,
                    s,
                    size,
                    is_max,
                    cands,
                )
            } else {
                move_value(maxt, mint, depth, s, size, is_max, cands[i]) > best_value(
                    maxt,
                    mint,
                    depth,
                    s,
                    size,
                    is_max,
                    cands,
                )
            }),
        forall|i: int|
            0 <= i < cands.len() ==> (if is_max {
                move_value(maxt, mint, depth, s, size, is_max, #[trigger] cands[i]) <= best_value(
                    maxt,
                    mint,
                    depth,
                    s,
                    size,
                    is_max,
                    cands,
                )
            } else {
                move_value(maxt, mint, depth, s, size, is_max, cands[i]) >= best_value(
                    maxt,
                    mint,
                    depth,
                    s,
                    size,
                    is_max,
                    cands,
                )
            }),
    decreases cands.len(),
{
    let bv = best_value(maxt, mint, depth, s, size, is_max, cands);
    let h = move_value(maxt, mint, depth, s, size, is_max, cands.last());
    if cands.len() == 1 {
        cands.len() - 1
    } else {
        let rest = cands.drop_last();
        let rest_bv = best_value(maxt, mint, depth, s, size, is_max, rest);
        let k0 = lemma_best_characterization(maxt, mint, depth, s, size, is_max, rest);
        assert(forall|i: int| 0 <= i < rest.len() ==> rest[i] == cands[i]);
        if (is_max && h > rest_bv) || (!is_max && h < rest_bv) {
            cands.len() - 1
        } else {
            k0
        }
    }
}


/// A pair of opposing marks: the strategy's own and its opponent's.
pub open spec fn opposing(maxt: Token, mint: Token) -> bool {
    ||| (maxt is Cross && mint is Nought)
    ||| (maxt is Nought && mint is Cross)
}

/// A board the game can stand on: a full grid of positive size, small
/// enough to index.
pub open spec fn board_shape(s: Seq<Token>, size: nat) -> bool {
    &&& s.len() == size * size
    &&& size >= 1
    &&& s.len() <= usize::MAX
}

/// After a mark lands on an empty cell of an unwon board, the winner can
/// only be that mark: the other mark gained no line, so either the mover's
/// line is complete and the mover won, or nobody has.
pub proof fn lemma_winner_after_move(s: Seq<Token>, size: nat, c: int, tok: Token)
    requires
        board_shape(s, size),
        !spec_is_won(s, size),
        0 <= c < s.len(),
        s[c] is Empty,
        tok is Cross || tok is Nought,
    ensures
        spec_win_for(s.update(c, tok), size, tok) ==> spec_winner(s.update(c, tok), size) == tok,
        !spec_win_for(s.update(c, tok), size, tok) ==> !spec_is_won(s.update(c, tok), size)
            && spec_winner(s.update(c, tok), size) == Token::Empty,
{
    let s2 = s.update(c, tok);
    let other = if tok is Cross {
        Token::Nought
    } else {
        Token::Cross
    };
    if spec_win_for(s2, size, other) {
        lemma_win_transfer(s2, s, size, other);
    }
    assert(!spec_win_for(s2, size, other));
}

/// If the player to move can complete a line at once, the position's value
/// is exactly the immediate-win score: `depth + 9` for the maximizing
/// player, `-depth - 9` for the minimizing player, with `depth` the number
/// of empty cells.
pub proof fn lemma_immediate_win_value(
    maxt: Token,
    mint: Token,
    depth: int,
    s: Seq<Token>,
    size: nat,
    is_max: bool,
    k: usize,
)
    requires
        board_shape(s, size),
        opposing(maxt, mint),
        !spec_is_game_over(s, size),
        depth == empty_indices(s).len(),
        k < s.len(),
        s[k as int] is Empty,
        spec_win_for(s.update(k as int, mover(maxt, mint, is_max)), size, mover(maxt, mint, is_max)),
    ensures
        is_max ==> node_value(maxt, mint, depth, s, size, true) == depth + 9,
        !is_max ==> node_value(maxt, mint, depth, s, size, false) == -depth - 9,
{
    let tok = mover(maxt, mint, is_max);
    let cs = empty_indices(s);
    lemma_empty_indices(s);
    assert(cs.contains(k));
    let ki = choose|ki: int| 0 <= ki < cs.len() && cs[ki] == k;

    let s2 = s.update(k as int, tok);
    lemma_winner_after_move(s, size, k as int, tok);
    assert(spec_is_won(s2, size));
    assert(valid_move(s, tok, k));
    lemma_empty_indices_update(s, k as int, tok);
    assert(move_value(maxt, mint, depth, s, size, is_max, k) == spec_score(
        maxt,
        mint,
        depth - 1,
        s2,
        size,
    ));

    assert forall|i: int| 0 <= i < cs.len() implies -(depth + 9) <= move_value(
        maxt,
        mint,
        depth,
        s,
        size,
        is_max,
        #[trigger] cs[i],
    ) <= depth + 9 by {
        let c = cs[i];
        assert(valid_move(s, tok, c));
        lemma_empty_indices_update(s, c as int, tok);
        lemma_value_bounds(maxt, mint, depth - 1, s.update(c as int, tok), size, !is_max);
    }

    let kw = lemma_best_characterization(maxt, mint, depth, s, size, is_max, cs);
}

/// Without an immediate winning move, the player to move cannot reach the
/// immediate-win score: the value stays at least one ply away from it.
pub proof fn lemma_no_immediate_win_bound(
    maxt: Token,
    mint: Token,
    depth: int,
    s: Seq<Token>,
    size: nat,
    is_max: bool,
)
    requires
        board_shape(s, size),
        opposing(maxt, mint),
        !spec_is_game_over(s, size),
        depth == empty_indices(s).len(),
        forall|c: usize|
            valid_move(s, mover(maxt, mint, is_max), c) ==> !spec_win_for(
                s.update(c as int, mover(maxt, mint, is_max)),
                size,
                mover(maxt, mint, is_max),
            ),
    ensures
        is_max ==> node_value(maxt, mint, depth, s, size, true) <= depth + 8,
        !is_max ==> node_value(maxt, mint, depth, s, size, false) >= -depth - 8,
{
    let tok = mover(maxt, mint, is_max);
    let cs = empty_indices(s);
    lemma_empty_indices(s);
    assert(spec_has_empty(s));
    let j = choose|j: int| 0 <= j < s.len() && s[j] is Empty;
    assert(cs.contains(j as usize));

    assert forall|i: int| 0 <= i < cs.len() implies -(depth + 8) <= move_value(
        maxt,
        mint,
        depth,
        s,
        size,
        is_max,
        #[trigger] cs[i],
    ) <= depth + 8 by {
        let c = cs[i];
        assert(valid_move(s, tok, c));
        let s2 = s.update(c as int, tok);
        lemma_empty_indices_update(s, c as int, tok);
        lemma_winner_after_move(s, size, c as int, tok);
        assert(!spec_win_for(s2, size, tok));
        if spec_is_game_over(s2, size) {
            assert(spec_winner(s2, size) == Token::Empty);
            assert(move_value(maxt, mint, depth, s, size, is_max, c) == 0);
        } else {
            lemma_value_bounds(maxt, mint, depth - 1, s2, size, !is_max);
        }
    }

    let kw = lemma_best_characterization(maxt, mint, depth, s, size, is_max, cs);
}

/// The decided move is one of the empty cells, its value is the game value,
/// every earlier empty cell does strictly worse, and none does better:
/// minimax optimality of the search, with the ascending-index tie-break.
pub proof fn lemma_decided_move_optimal(maxt: Token, mint: Token, s: Seq<Token>, size: nat) -> (k:
    int)
    requires
        board_shape(s, size),
        !(maxt is Empty),
        !(mint is Empty),
        !spec_is_game_over(s, size),
    ensures
        ({
            let cs = empty_indices(s);
            let d = cs.len() as int;
            let v = node_value(maxt, mint, d, s, size, true);
            &&& 0 <= k < cs.len()
            &&& cs[k] == decided_move(maxt, mint, s, size)
            &&& decided_move(maxt, mint, s, size) < s.len()
            &&& s[decided_move(maxt, mint, s, size) as int] is Empty
            &&& move_value(maxt, mint, d, s, size, true, cs[k]) == v
            &&& forall|i: int|
                0 <= i < k ==> move_value(maxt, mint, d, s, size, true, #[trigger] cs[i]) < v
            &&& forall|i: int|
                0 <= i < cs.len() ==> move_value(maxt, mint, d, s, size, true, #[trigger] cs[i])
                    <= v
        }),
{
    let cs = empty_indices(s);
    lemma_empty_indices(s);
    assert(spec_has_empty(s));
    let j = choose|j: int| 0 <= j < s.len() && s[j] is Empty;
    assert(cs.contains(j as usize));
    let kw = lemma_best_characterization(maxt, mint, cs.len() as int, s, size, true, cs);
    kw
}

/// Soundness: if some open cell keeps the game value non-negative — after
/// it, the opponent cannot force a win under best play — then the decided
/// move's value is non-negative too. The strategy never picks a losing move
/// while a non-losing one exists.
pub proof fn lemma_decide_never_loses(maxt: Token, mint: Token, s: Seq<Token>, size: nat, j: usize)
    requires
        board_shape(s, size),
        !(maxt is Empty),
        !(mint is Empty),
        !spec_is_game_over(s, size),
        j < s.len(),
        s[j as int] is Empty,
        move_value(maxt, mint, empty_indices(s).len() as int, s, size, true, j) >= 0,
    ensures
        move_value(
            maxt,
            mint,
            empty_indices(s).len() as int,
            s,
            size,
            true,
            decided_move(maxt, mint, s, size),
        ) >= 0,
{
    let cs = empty_indices(s);
    let d = cs.len() as int;
    lemma_empty_indices(s);
    assert(cs.contains(j));
    let ji = choose|ji: int| 0 <= ji < cs.len() && cs[ji] == j;
    let k = lemma_decided_move_optimal(maxt, mint, s, size);
    assert(move_value(maxt, mint, d, s, size, true, cs[ji]) <= node_value(
        maxt,
        mint,
        d,
        s,
        size,
        true,
    ));
}

/// Winning when possible: if the strategy's own mark can complete a line at
/// once, the decided move completes one, and its value is the immediate-win
/// score `depth + 9`.
pub proof fn lemma_decide_takes_immediate_win(
    maxt: Token,
    mint: Token,
    s: Seq<Token>,
    size: nat,
    k: usize,
)
    requires
        board_shape(s, size),
        opposing(maxt, mint),
        !spec_is_game_over(s, size),
        k < s.len(),
        s[k as int] is Empty,
        spec_win_for(s.update(k as int, maxt), size, maxt),
    ensures
        ({
            let m = decided_move(maxt, mint, s, size);
            let d = empty_indices(s).len() as int;
            &&& m < s.len()
            &&& s[m as int] is Empty
            &&& spec_win_for(s.update(m as int, maxt), size, maxt)
            &&& move_value(maxt, mint, d, s, size, true, m) == d + 9
        }),
{
    let cs = empty_indices(s);
    let d = cs.len() as int;
    lemma_empty_indices(s);
    assert(mover(maxt, mint, true) == maxt);
    lemma_immediate_win_value(maxt, mint, d, s, size, true, k);
    let kd = lemma_decided_move_optimal(maxt, mint, s, size);
    let m = decided_move(maxt, mint, s, size);
    assert(move_value(maxt, mint, d, s, size, true, m) == d + 9);

    let s2 = s.update(m as int, maxt);
    assert(valid_move(s, maxt, m));
    lemma_empty_indices_update(s, m as int, maxt);
    if !spec_is_game_over(s2, size) {
        lemma_value_bounds(maxt, mint, d - 1, s2, size, false);
        assert(false);
    }
    assert(move_value(maxt, mint, d, s, size, true, m) == spec_score(maxt, mint, d - 1, s2, size));
    lemma_winner_after_move(s, size, m as int, maxt);
    if !spec_win_for(s2, size, maxt) {
        assert(spec_winner(s2, size) == Token::Empty);
        assert(spec_score(maxt, mint, d - 1, s2, size) == 0);
        assert(d >= 1);
        assert(false);
    }
}

/// Blocking: when the opponent has exactly one cell that would complete a
/// line for it, and the strategy's own mark can complete none, the decided
/// move is that cell.
pub proof fn lemma_decide_blocks(maxt: Token, mint: Token, s: Seq<Token>, size: nat, k: usize)
    requires
        board_shape(s, size),
        opposing(maxt, mint),
        !spec_is_game_over(s, size),
        k < s.len(),
        s[k as int] is Empty,
        spec_win_for(s.update(k as int, mint), size, mint),
        forall|c: usize|
            valid_move(s, mint, c) && c != k ==> !spec_win_for(
                s.update(c as int, mint),
                size,
                mint,
            ),
        forall|c: usize|
            valid_move(s, maxt, c) ==> !spec_win_for(s.update(c as int, maxt), size, maxt),
    ensures
        decided_move(maxt, mint, s, size) == k,
{
    let cs = empty_indices(s);
    let d = cs.len() as int;
    lemma_empty_indices(s);
    assert(cs.contains(k));
    let ki = choose|ki: int| 0 <= ki < cs.len() && cs[ki] == k;
    let kd = lemma_decided_move_optimal(maxt, mint, s, size);
    let m = decided_move(maxt, mint, s, size);
    let v = node_value(maxt, mint, d, s, size, true);

    if cs.len() == 1 {
        assert(cs[kd] == cs[ki]);
    } else {
        // Every non-blocking reply hands the opponent its one-move win.
        assert forall|i: int| 0 <= i < cs.len() && cs[i] != k implies move_value(
            maxt,
            mint,
            d,
            s,
            size,
            true,
            #[trigger] cs[i],
        ) == -(d + 8) by {
            let j = cs[i];
            assert(valid_move(s, maxt, j));
            let sj = s.update(j as int, maxt);
            lemma_empty_indices_update(s, j as int, maxt);
            lemma_winner_after_move(s, size, j as int, maxt);
            assert(!spec_win_for(sj, size, maxt));
            assert(!spec_is_won(sj, size));
            // the board after the reply still has the opponent's winning cell open
            assert(sj[k as int] is Empty);
            assert(spec_has_empty(sj));
            assert(!spec_is_game_over(sj, size));
            // the opponent's winning line survives the reply, which is off the line
            lemma_win_transfer(
                s.update(k as int, mint),
                sj.update(k as int, mint),
                size,
                mint,
            );
            lemma_immediate_win_value(maxt, mint, d - 1, sj, size, false, k);
            assert(move_value(maxt, mint, d, s, size, true, j) == node_value(
                maxt,
                mint,
                d - 1,
                sj,
                size,
                false,
            ));
        }

        // The block leaves the opponent without an immediate win.
        let sk = s.update(k as int, maxt);
        assert(valid_move(s, maxt, k));
        lemma_empty_indices_update(s, k as int, maxt);
        lemma_winner_after_move(s, size, k as int, maxt);
        assert(!spec_is_won(sk, size));
        assert(cs.len() >= 2);
        // some other empty cell remains
        let other_i: int = if ki == 0 {
            1
        } else {
            0
        };
        assert(sk[cs[other_i] as int] is Empty);
        assert(spec_has_empty(sk));
        assert(!spec_is_game_over(sk, size));
        assert forall|c: usize| valid_move(sk, mint, c) implies !spec_win_for(
            sk.update(c as int, mint),
            size,
            mint,
        ) by {
            if spec_win_for(sk.update(c as int, mint), size, mint) {
                assert(c != k);
                lemma_win_transfer(
                    sk.update(c as int, mint),
                    s.update(c as int, mint),
                    size,
                    mint,
                );
                assert(valid_move(s, mint, c));
            }
        }
        lemma_no_immediate_win_bound(maxt, mint, d - 1, sk, size, false);
        assert(move_value(maxt, mint, d, s, size, true, k) >= -(d - 1) - 8);

        // so the block strictly beats every other move, and the search takes it
        assert(move_value(maxt, mint, d, s, size, true, cs[ki]) <= v);
        if cs[kd] != k {
            assert(move_value(maxt, mint, d, s, size, true, cs[kd]) == -(d + 8));
            assert(v >= move_value(maxt, mint, d, s, size, true, k));
            assert(false);
        }
    }
}

} // verus!
