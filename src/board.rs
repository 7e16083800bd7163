use vstd::prelude::*;

use crate::cell::{Cell, LineType};

verus! {

/// `n` is the side of a square board with `len` cells.
pub open spec fn is_side_of(n: nat, len: nat) -> bool {
    n * n == len
}

/// The side of a square board with `len` cells.
pub open spec fn side_of(len: nat) -> nat {
    choose|n: nat| is_side_of(n, len)
}

/// Where the `x`-th cell of a line sits in the row-major cell sequence of a
/// board of side `n`.
pub open spec fn cell_index(n: nat, ln: LineType, k: nat, x: nat) -> nat {
    match ln {
        LineType::Row => k * n + x,
        LineType::Col => x * n + k,
    }
}

/// Row `k` read left to right, or column `k` read top to bottom.
pub open spec fn line_of(cells: Seq<Cell>, n: nat, ln: LineType, k: nat) -> Seq<Cell> {
    Seq::new(n, |x: int| cells[cell_index(n, ln, k, x as nat) as int])
}

/// Every cell has been given a value.
pub open spec fn all_set(cells: Seq<Cell>) -> bool {
    forall|i: int| 0 <= i < cells.len() ==> #[trigger] cells[i].is_set()
}

/// Two squares of different sides have different areas.
pub proof fn lemma_side_unique(n: nat, m: nat)
    requires
        n * n == m * m,
    ensures
        n == m,
{
    if n < m {
        assert(n * n < m * m) by (nonlinear_arith)
            requires
                n < m,
        ;
    } else if m < n {
        assert(m * m < n * n) by (nonlinear_arith)
            requires
                m < n,
        ;
    }
}

/// The cells of a line all lie inside the board.
pub proof fn lemma_cell_index_bound(n: nat, ln: LineType, k: nat, x: nat)
    requires
        k < n,
        x < n,
    ensures
        cell_index(n, ln, k, x) < n * n,
        k * n + x < n * n,
        x * n + k < n * n,
{
    assert(k * n + x < n * n) by (nonlinear_arith)
        requires
            k < n,
            x < n,
    ;
    assert(x * n + k < n * n) by (nonlinear_arith)
        requires
            k < n,
            x < n,
    ;
}

/// A square grid of cells, stored row by row.
#[derive(Debug)]
pub struct Board {
    pub cells: Vec<Cell>,
}

impl Board {
    /// The number of cells is a perfect square.
    pub open spec fn wf(&self) -> bool {
        exists|n: nat| is_side_of(n, self.cells@.len())
    }

    /// The number of cells in each row and each column.
    pub open spec fn side_spec(&self) -> nat {
        side_of(self.cells@.len())
    }

    /// A board of side `n` on which no cell has a value yet.
    pub fn new(n: usize) -> (r: Board)
        requires
            n * n <= usize::MAX,
        ensures
            r.cells@ == Seq::new((n * n) as nat, |i: int| Cell::Unknown),
            r.wf(),
            r.side_spec() == n,
    {
        let len = n * n;
        let mut cells: Vec<Cell> = Vec::new();
        for i in 0..len
            invariant
                cells@ == Seq::new(i as nat, |j: int| Cell::Unknown),
        {
            cells.push(Cell::Unknown);
        }
        let r = Board { cells };
        proof {
            assert(is_side_of(n as nat, r.cells@.len()));
            lemma_side_unique(r.side_spec(), n as nat);
        }
        r
    }

    /// The number of cells in each row and each column.
    pub fn side(&self) -> (r: usize)
        requires
            self.wf(),
        ensures
            r == self.side_spec(),
    {
        let len = self.cells.len();
        let ghost s = self.side_spec();
        let mut n: usize = 0;
        while n * n < len
            invariant
                len == self.cells@.len(),
                s * s == len,
                n <= s,
                n * n <= len,
            decreases s - n,
        {
            proof {
                if n >= s {
                    assert(n * n >= s * s) by (nonlinear_arith)
                        requires
                            n >= s,
                    ;
                }
                assert((n + 1) * (n + 1) <= s * s) by (nonlinear_arith)
                    requires
                        n < s,
                ;
                assert(n + 1 <= (n + 1) * (n + 1)) by (nonlinear_arith);
            }
            n = n + 1;
        }
        proof {
            lemma_side_unique(n as nat, s);
        }
        n
    }

    /// Row `k` from left to right, or column `k` from top to bottom.
    pub fn get_line(&self, ln: LineType, k: usize) -> (r: Vec<Cell>)
        requires
            self.wf(),
            k < self.side_spec(),
        ensures
            r@ == line_of(self.cells@, self.side_spec(), ln, k as nat),
    {
        let n = self.side();
        let len = self.cells.len();
        let mut r: Vec<Cell> = Vec::new();
        for x in 0..n
            invariant
                n == self.side_spec(),
                n * n == self.cells@.len(),
                len == self.cells@.len(),
                k < n,
                r@ == line_of(self.cells@, n as nat, ln, k as nat).take(x as int),
        {
            proof {
                lemma_cell_index_bound(n as nat, ln, k as nat, x as nat);
                assert(k * n + x < self.cells@.len());
                assert(x * n + k < self.cells@.len());
            }
            let i: usize = if ln == LineType::Row {
                k * n + x
            } else {
                x * n + k
            };
            r.push(self.cells[i]);
            assert(r@ =~= line_of(self.cells@, n as nat, ln, k as nat).take(x + 1));
        }
        assert(r@ =~= line_of(self.cells@, n as nat, ln, k as nat));
        r
    }

    /// The first cell, in row-major order, that has no value yet.
    pub fn first_unknown(&self) -> (r: Option<usize>)
        ensures
            r matches Some(i) ==> i < self.cells@.len() && !self.cells@[i as int].is_set() && forall|j: int|
                0 <= j < i ==> #[trigger] self.cells@[j].is_set(),
            r is None ==> all_set(self.cells@),
    {
        for i in 0..self.cells.len()
            invariant
                forall|j: int| 0 <= j < i ==> #[trigger] self.cells@[j].is_set(),
        {
            if self.cells[i] == Cell::Unknown {
                return Some(i);
            }
        }
        None
    }

    /// Whether every cell has been given a value.
    pub fn is_filled(&self) -> (r: bool)
        ensures
            r == all_set(self.cells@),
    {
        for i in 0..self.cells.len()
            invariant
                forall|j: int| 0 <= j < i ==> #[trigger] self.cells@[j].is_set(),
        {
            if self.cells[i] == Cell::Unknown {
                assert(!self.cells@[i as int].is_set());
                return false;
            }
        }
        true
    }
}

/// A partly filled board of side five, used as a worked example.
pub fn test_board() -> (r: Board)
    ensures
        r.cells@ == seq![
            Cell::Unknown, Cell::ValA, Cell::Unknown, Cell::ValB, Cell::Unknown,
            Cell::ValC, Cell::Unknown, Cell::ValD, Cell::Unknown, Cell::Empty,
            Cell::ValB, Cell::ValC, Cell::ValD, Cell::Unknown, Cell::Unknown,
            Cell::Unknown, Cell::Unknown, Cell::Unknown, Cell::Unknown, Cell::Unknown,
            Cell::Unknown, Cell::Unknown, Cell::Unknown, Cell::Empty, Cell::Empty,
        ],
        r.wf(),
        r.side_spec() == 5,
{
    let mut board = Board::new(5);
    board.cells.set(1, Cell::ValA);
    board.cells.set(3, Cell::ValB);
    board.cells.set(5, Cell::ValC);
    board.cells.set(7, Cell::ValD);
    board.cells.set(9, Cell::Empty);
    board.cells.set(10, Cell::ValB);
    board.cells.set(11, Cell::ValC);
    board.cells.set(12, Cell::ValD);
    board.cells.set(23, Cell::Empty);
    board.cells.set(24, Cell::Empty);
    proof {
        assert(is_side_of(5, board.cells@.len()));
        lemma_side_unique(board.side_spec(), 5);
    }
    assert(board.cells@ =~= seq![
        Cell::Unknown, Cell::ValA, Cell::Unknown, Cell::ValB, Cell::Unknown,
        Cell::ValC, Cell::Unknown, Cell::ValD, Cell::Unknown, Cell::Empty,
        Cell::ValB, Cell::ValC, Cell::ValD, Cell::Unknown, Cell::Unknown,
        Cell::Unknown, Cell::Unknown, Cell::Unknown, Cell::Unknown, Cell::Unknown,
        Cell::Unknown, Cell::Unknown, Cell::Unknown, Cell::Empty, Cell::Empty,
    ]);
    board
}

} // verus!
