//! The board: a `size x size` grid of tokens stored row-major, with
//! functional update, the partition into winnable lines, and the ascending
//! list of empty cells that drives the search.

use vstd::prelude::*;

use crate::token::Token;

verus! {

pub type CellMatrix = Vec<Vec<Token>>;

#[derive(Debug)]
pub struct Board {
    pub size: usize,
    pub cells: Vec<Token>,
}

impl View for Board {
    type V = Seq<Token>;

    open spec fn view(&self) -> Seq<Token> {
        self.cells@
    }
}

/// Row `i` of the grid, as a sequence of `size` tokens.
pub open spec fn spec_row(s: Seq<Token>, size: nat, i: int) -> Seq<Token> {
    Seq::new(size, |j: int| s[i * size + j])
}

/// Column `i` of the grid.
pub open spec fn spec_column(s: Seq<Token>, size: nat, i: int) -> Seq<Token> {
    Seq::new(size, |j: int| s[j * size + i])
}

/// The diagonal from the top-left corner to the bottom-right corner.
pub open spec fn spec_left_diagonal(s: Seq<Token>, size: nat) -> Seq<Token> {
    Seq::new(size, |j: int| s[j * size + j])
}

/// The diagonal from the top-right corner to the bottom-left corner.
pub open spec fn spec_right_diagonal(s: Seq<Token>, size: nat) -> Seq<Token> {
    Seq::new(size, |j: int| s[j * size + (size - 1 - j)])
}

/// Line `i` of the board's partition: the `size` rows come first, then the
/// `size` columns, then the two diagonals; `2 * size + 2` lines in all.
pub open spec fn spec_line(s: Seq<Token>, size: nat, i: int) -> Seq<Token> {
    if i < size {
        spec_row(s, size, i)
    } else if i < 2 * size {
        spec_column(s, size, i - size)
    } else if i == 2 * size {
        spec_left_diagonal(s, size)
    } else {
        spec_right_diagonal(s, size)
    }
}

/// The indices below `n` whose cell is empty, in ascending order.
pub open spec fn empty_indices_upto(s: Seq<Token>, n: int) -> Seq<usize>
    decreases n,
{
    if n <= 0 {
        Seq::empty()
    } else if s[n - 1] is Empty {
        empty_indices_upto(s, n - 1).push((n - 1) as usize)
    } else {
        empty_indices_upto(s, n - 1)
    }
}

/// The indices of all empty cells, in ascending order.
pub open spec fn empty_indices(s: Seq<Token>) -> Seq<usize> {
    empty_indices_upto(s, s.len() as int)
}

/// `empty_indices_upto(s, n)` holds exactly the indices below `n` whose cell
/// is empty, in strictly ascending order.
pub proof fn lemma_empty_indices_upto(s: Seq<Token>, n: int)
    requires
        0 <= n <= s.len(),
        n <= usize::MAX,
    ensures
        forall|k: int| #![trigger empty_indices_upto(s, n)[k]]
            0 <= k < empty_indices_upto(s, n).len() ==> empty_indices_upto(s, n)[k] < n
                && s[empty_indices_upto(s, n)[k] as int] is Empty,
        forall|k1: int, k2: int|
            #![trigger empty_indices_upto(s, n)[k1], empty_indices_upto(s, n)[k2]]
            0 <= k1 < k2 < empty_indices_upto(s, n).len() ==> empty_indices_upto(s, n)[k1]
                < empty_indices_upto(s, n)[k2],
        forall|j: int| #![trigger s[j]]
            0 <= j < n && s[j] is Empty ==> empty_indices_upto(s, n).contains(j as usize),
        empty_indices_upto(s, n).len() <= n,
    decreases n,
{
    if n > 0 {
        lemma_empty_indices_upto(s, n - 1);
        let e0 = empty_indices_upto(s, n - 1);
        let e = empty_indices_upto(s, n);
        assert forall|k: int| 0 <= k < e.len() implies e[k] < n && s[e[k] as int] is Empty by {
            if k < e0.len() {
                assert(e[k] == e0[k]);
                assert(e0[k] < n - 1 && s[e0[k] as int] is Empty);
            } else {
                assert(s[n - 1] is Empty);
                assert(e[k] == (n - 1) as usize);
            }
        }
        assert forall|k1: int, k2: int| 0 <= k1 < k2 < e.len() implies e[k1] < e[k2] by {
            if k2 < e0.len() {
                assert(e[k1] == e0[k1] && e[k2] == e0[k2]);
                assert(e0[k1] < e0[k2]);
            } else {
                assert(s[n - 1] is Empty);
                assert(e[k1] == e0[k1] && e0[k1] < n - 1);
                assert(e[k2] == (n - 1) as usize);
            }
        }
        assert forall|j: int| 0 <= j < n && s[j] is Empty implies e.contains(j as usize) by {
            if j < n - 1 {
                assert(e0.contains(j as usize));
                let k = choose|k: int| 0 <= k < e0.len() && e0[k] == j as usize;
                assert(e[k] == j as usize);
            } else {
                assert(s[n - 1] is Empty);
                assert(e == e0.push((n - 1) as usize));
                assert(e[e.len() - 1] == j as usize);
            }
        }
    }
}

/// The same characterization for the full list of empty cells.
pub proof fn lemma_empty_indices(s: Seq<Token>)
    requires
        s.len() <= usize::MAX,
    ensures
        forall|k: int|
            0 <= k < empty_indices(s).len() ==> #[trigger] empty_indices(s)[k] < s.len()
                && s[empty_indices(s)[k] as int] is Empty,
        forall|k1: int, k2: int|
            0 <= k1 < k2 < empty_indices(s).len() ==> empty_indices(s)[k1] < empty_indices(s)[k2],
        forall|j: int| 0 <= j < s.len() && s[j] is Empty ==> empty_indices(s).contains(j as usize),
        empty_indices(s).len() <= s.len(),
{
    lemma_empty_indices_upto(s, s.len() as int);
}

/// Filling one empty cell with a mark removes exactly one entry from the
/// list of empty cells.
pub proof fn lemma_empty_indices_upto_update(s: Seq<Token>, i: int, t: Token, n: int)
    requires
        0 <= i < s.len(),
        s[i] is Empty,
        !(t is Empty),
        0 <= n <= s.len(),
    ensures
        n <= i ==> empty_indices_upto(s.update(i, t), n) == empty_indices_upto(s, n),
        n > i ==> empty_indices_upto(s.update(i, t), n).len() == empty_indices_upto(s, n).len()
            - 1,
    decreases n,
{
    if n > 0 {
        lemma_empty_indices_upto_update(s, i, t, n - 1);
    }
}

/// The same fact for the full lists.
pub proof fn lemma_empty_indices_update(s: Seq<Token>, i: int, t: Token)
    requires
        0 <= i < s.len(),
        s[i] is Empty,
        !(t is Empty),
    ensures
        empty_indices(s.update(i, t)).len() == empty_indices(s).len() - 1,
{
    lemma_empty_indices_upto_update(s, i, t, s.len() as int);
}

impl Board {
    /// The stored cells fill the whole `size x size` grid.
    pub open spec fn wf(&self) -> bool {
        &&& self@.len() == self.size * self.size
        &&& self.size >= 1
    }

    /// An all-empty board of the given size.
    pub fn new(size: usize) -> (r: Board)
        requires
            1 <= size,
            size * size <= usize::MAX,
        ensures
            r.wf(),
            r.size == size,
            r@.len() == size * size,
            forall|i: int| 0 <= i < r@.len() ==> r@[i] is Empty,
    {
        let length = size * size;
        let mut cells: Vec<Token> = Vec::new();
        let mut i: usize = 0;
        while i < length
            invariant
                i <= length,
                cells@.len() == i,
                forall|k: int| 0 <= k < i ==> cells@[k] is Empty,
            decreases length - i,
        {
            cells.push(Token::Empty);
            i += 1;
        }
        Board { size, cells }
    }

    pub fn get_cells(&self) -> (r: &Vec<Token>)
        ensures
            r@ == self@,
    {
        &self.cells
    }

    pub fn get_row_size(&self) -> (r: usize)
        ensures
            r == self.size,
    {
        self.size
    }

    pub fn get_length(&self) -> (r: usize)
        requires
            self.wf(),
        ensures
            r == self@.len(),
    {
        let n = self.cells.len();
        assert(self.size * self.size == n);
        self.size * self.size
    }

    /// Functional update: fills the cell if it is empty; an update aimed at
    /// an occupied cell is a silent no-op and returns the board unchanged.
    pub fn update(self, cell_move: usize, token: Token) -> (r: Board)
        requires
            self.wf(),
            cell_move < self@.len(),
        ensures
            r.wf(),
            r.size == self.size,
            self@[cell_move as int] is Empty ==> r@ == self@.update(cell_move as int, token),
            !(self@[cell_move as int] is Empty) ==> r@ == self@,
    {
        if self.is_empty_cell(cell_move) {
            let mut cells = self.cells;
            cells[cell_move] = token;
            return Board { size: self.size, cells };
        };

        self
    }

    /// All lines a player can win on: the rows, then the columns, then the
    /// two diagonals.
    pub fn partition(&self) -> (r: CellMatrix)
        requires
            self.wf(),
        ensures
            r@.len() == 2 * self.size + 2,
            forall|i: int|
                0 <= i < r@.len() ==> #[trigger] r@[i]@ == spec_line(self@, self.size as nat, i),
    {
        let mut r = self.rows();
        let mut columns = self.columns();
        let mut diagonals = self.diagonals();
        r.append(&mut columns);
        r.append(&mut diagonals);
        r
    }

    pub fn is_empty_cell(&self, index: usize) -> (r: bool)
        requires
            index < self@.len(),
        ensures
            r == (self@[index as int] is Empty),
    {
        match self.cells[index] {
            Token::Empty => true,
            _ => false,
        }
    }

    /// The indices of the empty cells, in ascending order: the candidate
    /// moves for the search.
    pub fn empty_cells(&self) -> (r: Vec<usize>)
        ensures
            r@ == empty_indices(self@),
    {
        let mut empty_cells: Vec<usize> = Vec::new();
        let length = self.cells.len();
        let mut i: usize = 0;

        while i < length
            invariant
                i <= length,
                length == self@.len(),
                empty_cells@ == empty_indices_upto(self@, i as int),
            decreases length - i,
        {
            if self.is_empty_cell(i) {
                empty_cells.push(i);
            }
            i += 1;
        }

        empty_cells
    }

    fn rows(&self) -> (r: CellMatrix)
        requires
            self.wf(),
        ensures
            r@.len() == self.size,
            forall|i: int|
                0 <= i < self.size ==> #[trigger] r@[i]@ == spec_row(self@, self.size as nat, i),
    {
        let size = self.size;
        let length = self.cells.len();
        let mut r: CellMatrix = Vec::new();
        let mut i: usize = 0;
        while i < size
            invariant
                self.wf(),
                size == self.size,
                length == self@.len(),
                i <= size,
                r@.len() == i,
                forall|k: int|
                    0 <= k < i ==> #[trigger] r@[k]@ == spec_row(self@, self.size as nat, k),
            decreases size - i,
        {
            let mut row: Vec<Token> = Vec::new();
            let mut j: usize = 0;
            while j < size
                invariant
                    self.wf(),
                    size == self.size,
                    length == self@.len(),
                    i < size,
                    j <= size,
                    row@.len() == j,
                    forall|m: int| 0 <= m < j ==> row@[m] == self@[i * size + m],
                decreases size - j,
            {
                proof {
                    lemma_grid_index(size as int, i as int, j as int);
                }
                row.push(self.cells[i * size + j]);
                j += 1;
            }
            proof {
                assert(row@ =~= spec_row(self@, self.size as nat, i as int));
            }
            r.push(row);
            i += 1;
        }
        r
    }

    fn columns(&self) -> (r: CellMatrix)
        requires
            self.wf(),
        ensures
            r@.len() == self.size,
            forall|i: int|
                0 <= i < self.size ==> #[trigger] r@[i]@ == spec_column(
                    self@,
                    self.size as nat,
                    i,
                ),
    {
        let size = self.size;
        let length = self.cells.len();
        let mut r: CellMatrix = Vec::new();
        let mut i: usize = 0;
        while i < size
            invariant
                self.wf(),
                size == self.size,
                length == self@.len(),
                i <= size,
                r@.len() == i,
                forall|k: int|
                    0 <= k < i ==> #[trigger] r@[k]@ == spec_column(self@, self.size as nat, k),
            decreases size - i,
        {
            let mut column: Vec<Token> = Vec::new();
            let mut j: usize = 0;
            while j < size
                invariant
                    self.wf(),
                    size == self.size,
                    length == self@.len(),
                    i < size,
                    j <= size,
                    column@.len() == j,
                    forall|m: int| 0 <= m < j ==> column@[m] == self@[m * size + i],
                decreases size - j,
            {
                proof {
                    lemma_grid_index(size as int, j as int, i as int);
                }
                column.push(self.cells[j * size + i]);
                j += 1;
            }
            proof {
                assert(column@ =~= spec_column(self@, self.size as nat, i as int));
            }
            r.push(column);
            i += 1;
        }
        r
    }

    fn diagonals(&self) -> (r: CellMatrix)
        requires
            self.wf(),
        ensures
            r@.len() == 2,
            r@[0]@ == spec_left_diagonal(self@, self.size as nat),
            r@[1]@ == spec_right_diagonal(self@, self.size as nat),
    {
        let size = self.size;
        let length = self.cells.len();
        let mut left: Vec<Token> = Vec::new();
        let mut right: Vec<Token> = Vec::new();
        let mut j: usize = 0;
        while j < size
            invariant
                self.wf(),
                size == self.size,
                length == self@.len(),
                j <= size,
                left@.len() == j,
                right@.len() == j,
                forall|m: int| 0 <= m < j ==> left@[m] == self@[m * size + m],
                forall|m: int| 0 <= m < j ==> right@[m] == self@[m * size + (size - 1 - m)],
            decreases size - j,
        {
            proof {
                lemma_grid_index(size as int, j as int, j as int);
                lemma_grid_index(size as int, j as int, size - 1 - j);
            }
            left.push(self.cells[j * size + j]);
            right.push(self.cells[j * size + (size - 1 - j)]);
            j += 1;
        }
        proof {
            assert(left@ =~= spec_left_diagonal(self@, self.size as nat));
            assert(right@ =~= spec_right_diagonal(self@, self.size as nat));
        }
        let mut r: CellMatrix = Vec::new();
        r.push(left);
        r.push(right);
        r
    }
}

/// A row-major index stays inside the grid.
pub proof fn lemma_grid_index(size: int, i: int, j: int)
    requires
        0 <= i < size,
        0 <= j < size,
    ensures
        0 <= i * size + j < size * size,
{
    assert(0 <= i * size + j < size * size) by (nonlinear_arith)
        requires
            0 <= i < size,
            0 <= j < size,
    ;
}

impl Clone for Board {
    /// A clone has the same size and the same cells.
    fn clone(&self) -> (r: Self)
        ensures
            r@ == self@,
            r.size == self.size,
    {
        let mut cells: Vec<Token> = Vec::new();
        let length = self.cells.len();
        let mut i: usize = 0;
        while i < length
            invariant
                i <= length,
                length == self@.len(),
                cells@.len() == i,
                forall|k: int| 0 <= k < i ==> cells@[k] == self@[k],
            decreases length - i,
        {
            cells.push(self.cells[i]);
            i += 1;
        }
        proof {
            assert(cells@ =~= self@);
        }
        Board { size: self.size, cells }
    }
}

impl PartialEq for Board {
    fn eq(&self, other: &Board) -> (r: bool) {
        if self.size != other.size {
            return false;
        }
        if self.cells.len() != other.cells.len() {
            return false;
        }
        let length = self.cells.len();
        let mut i: usize = 0;
        while i < length
            invariant
                i <= length,
                length == self@.len(),
                length == other@.len(),
                forall|k: int| 0 <= k < i ==> self@[k] == other@[k],
            decreases length - i,
        {
            if self.cells[i] != other.cells[i] {
                return false;
            }
            i += 1;
        }
        proof {
            assert(self@ =~= other@);
        }
        true
    }
}

impl vstd::std_specs::cmp::PartialEqSpecImpl for Board {
    open spec fn obeys_eq_spec() -> bool {
        true
    }

    open spec fn eq_spec(&self, other: &Board) -> bool {
        self.size == other.size && self@ == other@
    }
}

} // verus!
