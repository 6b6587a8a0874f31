//! The trivial baseline strategy: an empty cell drawn at random.

use vstd::prelude::*;

use crate::board::{empty_indices, lemma_empty_indices, Board};
use crate::player::strategy::Strategy;
use crate::rules::spec_has_empty;

verus! {

#[derive(Debug, PartialEq, Eq, Structural, Default)]
pub struct Lazy;

/// Relies on rand::random_range over `0..n`: the result lies in the given
/// range; the range must not be empty, or the call panics.
#[verifier::external_body]
fn random_below(n: usize) -> (r: usize)
    requires
        n > 0,
    ensures
        r < n,
{
    rand::random_range(0..n)
}

impl Strategy for Lazy {
    open spec fn decide_req(&self, board: &Board) -> bool {
        true
    }

    open spec fn decide_ens(&self, board: &Board, r: usize) -> bool {
        true
    }

    /// Any empty cell, chosen uniformly at random.
    fn decide(&self, board: &Board) -> (r: usize) {
        let length = board.cells.len();
        let empty_cells = board.empty_cells();
        proof {
            assert(board@.len() == length);
            lemma_empty_indices(board@);
            assert(spec_has_empty(board@));
            let j = choose|j: int| 0 <= j < board@.len() && board@[j] is Empty;
            assert(empty_indices(board@).contains(j as usize));
        }
        let random_number = random_below(empty_cells.len());
        empty_cells[random_number]
    }
}

} // verus!
