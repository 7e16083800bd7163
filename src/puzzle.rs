use vstd::prelude::*;

use crate::board::{all_set, lemma_side_unique, line_of, Board};
use crate::cell::{Cell, LineType};
use crate::line::{
    agrees_with, clue_holds, count_of, first_seen, lemma_agrees_reverse, lemma_first_seen_stable,
    lemma_no_duplicates_by_count, no_duplicates, seen_from, slot, slot_cell,
};

verus! {

/// A puzzle as plain values: the four rows of clues and the board's cells.
pub struct PuzzleView {
    pub top: Seq<Cell>,
    pub bot: Seq<Cell>,
    pub left: Seq<Cell>,
    pub right: Seq<Cell>,
    pub cells: Seq<Cell>,
}

/// Why a board breaks the rules: a value twice in a line, or a clue that the
/// line does not show (`true` for the bottom or right clue).
#[derive(Clone, Copy, Debug, PartialEq, Eq, Structural)]
pub enum FailReason {
    DuplicateSymbol(LineType, usize),
    ClueViolated(LineType, usize, bool),
}

/// The clues of a puzzle, in the order top, bottom, left, right.
pub type Labels = (Vec<Cell>, Vec<Cell>, Vec<Cell>, Vec<Cell>);

/// A board together with the clues on its four edges.
#[derive(Debug)]
pub struct Puzzle {
    /// Top and bottom clues go by column, left and right clues by row.
    pub labels: Labels,
    pub board: Board,
}

impl View for Puzzle {
    type V = PuzzleView;

    open spec fn view(&self) -> PuzzleView {
        PuzzleView {
            top: self.labels.0@,
            bot: self.labels.1@,
            left: self.labels.2@,
            right: self.labels.3@,
            cells: self.board.cells@,
        }
    }
}

/// The outcome of checking a puzzle: no rule broken yet, the first rule
/// found broken, or a complete board that keeps every rule.
#[derive(Debug)]
pub enum Verification {
    VerOk,
    Fail(FailReason),
    Solution(Puzzle),
}

/// A [`Verification`] as plain values.
pub enum VerificationView {
    VerOk,
    Fail(FailReason),
    Solution(PuzzleView),
}

impl View for Verification {
    type V = VerificationView;

    open spec fn view(&self) -> VerificationView {
        match self {
            Verification::VerOk => VerificationView::VerOk,
            Verification::Fail(f) => VerificationView::Fail(*f),
            Verification::Solution(p) => VerificationView::Solution(p@),
        }
    }
}

impl PuzzleView {
    /// The number of cells in each row and column.
    pub open spec fn size(self) -> nat {
        self.top.len()
    }

    /// Four clue rows of the board's side, and a square board.
    pub open spec fn wf(self) -> bool {
        &&& self.bot.len() == self.size()
        &&& self.left.len() == self.size()
        &&& self.right.len() == self.size()
        &&& self.cells.len() == self.size() * self.size()
    }

    /// Row or column `k` in reading order.
    pub open spec fn line(self, ln: LineType, k: nat) -> Seq<Cell> {
        line_of(self.cells, self.size(), ln, k)
    }

    /// Row `k` and column `k` hold no value twice.
    pub open spec fn dupes_ok(self, k: nat) -> bool {
        no_duplicates(self.line(LineType::Row, k)) && no_duplicates(self.line(LineType::Col, k))
    }

    /// The four clues of index `k` hold.
    pub open spec fn clues_ok(self, k: nat) -> bool {
        &&& clue_holds(self.top[k as int], seen_from(self.line(LineType::Col, k), false))
        &&& clue_holds(self.bot[k as int], seen_from(self.line(LineType::Col, k), true))
        &&& clue_holds(self.left[k as int], seen_from(self.line(LineType::Row, k), false))
        &&& clue_holds(self.right[k as int], seen_from(self.line(LineType::Row, k), true))
    }

    /// The first duplicate found from index `k` on, row `k` before column `k`.
    pub open spec fn duplicate_failure_from(self, k: nat) -> Option<FailReason>
        decreases self.size() - k,
    {
        if k >= self.size() {
            None
        } else if !no_duplicates(self.line(LineType::Row, k)) {
            Some(FailReason::DuplicateSymbol(LineType::Row, k as usize))
        } else if !no_duplicates(self.line(LineType::Col, k)) {
            Some(FailReason::DuplicateSymbol(LineType::Col, k as usize))
        } else {
            self.duplicate_failure_from(k + 1)
        }
    }

    /// The first broken clue from index `k` on; for each index the top,
    /// bottom, left and right clue in that order.
    pub open spec fn clue_failure_from(self, k: nat) -> Option<FailReason>
        decreases self.size() - k,
    {
        if k >= self.size() {
            None
        } else if !clue_holds(self.top[k as int], seen_from(self.line(LineType::Col, k), false)) {
            Some(FailReason::ClueViolated(LineType::Col, k as usize, false))
        } else if !clue_holds(self.bot[k as int], seen_from(self.line(LineType::Col, k), true)) {
            Some(FailReason::ClueViolated(LineType::Col, k as usize, true))
        } else if !clue_holds(self.left[k as int], seen_from(self.line(LineType::Row, k), false)) {
            Some(FailReason::ClueViolated(LineType::Row, k as usize, false))
        } else if !clue_holds(self.right[k as int], seen_from(self.line(LineType::Row, k), true)) {
            Some(FailReason::ClueViolated(LineType::Row, k as usize, true))
        } else {
            self.clue_failure_from(k + 1)
        }
    }

    /// The rule broken first: all duplicate checks come before all clue
    /// checks.
    pub open spec fn first_failure(self) -> Option<FailReason> {
        match self.duplicate_failure_from(0) {
            Some(f) => Some(f),
            None => self.clue_failure_from(0),
        }
    }

    /// Every duplicate check and every clue check passes.
    pub open spec fn all_checks_pass(self) -> bool {
        forall|k: nat| #![trigger self.dupes_ok(k)] k < self.size() ==> self.dupes_ok(k) && self.clues_ok(k)
    }

    /// A complete board that keeps every rule.
    pub open spec fn is_solution(self) -> bool {
        &&& self.wf()
        &&& all_set(self.cells)
        &&& self.all_checks_pass()
    }

    /// `self` has the clues of `p` and keeps every value set on `p`'s board,
    /// possibly setting more.
    pub open spec fn completes(self, p: PuzzleView) -> bool {
        &&& self.top == p.top
        &&& self.bot == p.bot
        &&& self.left == p.left
        &&& self.right == p.right
        &&& self.cells.len() == p.cells.len()
        &&& forall|i: int|
            0 <= i < p.cells.len() && #[trigger] p.cells[i].is_set() ==> self.cells[i]
                == p.cells[i]
    }
}

impl PuzzleView {
    /// What checking this puzzle reports.
    pub open spec fn verification(self) -> VerificationView {
        match self.first_failure() {
            Some(f) => VerificationView::Fail(f),
            None => if all_set(self.cells) {
                VerificationView::Solution(self)
            } else {
                VerificationView::VerOk
            },
        }
    }
}

impl Puzzle {
    /// Whether no set value occurs twice among `cells`.
    pub fn duplicate_check(cells: &Vec<Cell>) -> (r: bool)
        ensures
            r == no_duplicates(cells@),
    {
        let mut counts: Vec<usize> = vec![0, 0, 0, 0, 0];
        let mut i: usize = 0;
        assert forall|c: Cell| c.is_set() implies counts@[slot(c)] == #[trigger] count_of(
            cells@.take(0),
            c,
        ) by {}
        while i < cells.len()
            invariant
                i <= cells@.len(),
                counts@.len() == 5,
                forall|c: Cell|
                    c.is_set() ==> counts@[slot(c)] == #[trigger] count_of(cells@.take(i as int), c),
                forall|v: int| 0 <= v < 5 ==> counts@[v] <= i,
            decreases cells@.len() - i,
        {
            let ghost before = counts@;
            let cell = cells[i];
            if cell != Cell::Unknown {
                let v = cell.slot_index();
                counts.set(v, counts[v] + 1);
            }
            let ghost seen = cells@.take(i + 1);
            assert(seen.drop_last() =~= cells@.take(i as int));
            assert(seen.last() == cell);
            assert forall|c: Cell| c.is_set() implies counts@[slot(c)] == #[trigger] count_of(
                seen,
                c,
            ) by {
                assert(before[slot(c)] == count_of(cells@.take(i as int), c));
                if c == cell {
                    assert(counts@[slot(c)] == before[slot(c)] + 1);
                } else {
                    assert(counts@[slot(c)] == before[slot(c)]);
                }
            }
            i = i + 1;
        }
        assert(cells@.take(cells@.len() as int) =~= cells@);
        assert forall|c: Cell| c.is_set() implies counts@[slot(c)] == #[trigger] count_of(cells@, c) by {
            assert(counts@[slot(c)] == count_of(cells@.take(cells@.len() as int), c));
        }
        let mut ok = true;
        for v in 0..5
            invariant
                counts@.len() == 5,
                forall|c: Cell|
                    c.is_set() ==> counts@[slot(c)] == #[trigger] count_of(cells@, c),
                ok == forall|c: Cell| c.is_set() && slot(c) < v ==> #[trigger] count_of(cells@, c) <= 1,
        {
            let ghost c = slot_cell(v as int);
            assert(c.is_set() && slot(c) == v);
            assert(counts@[v as int] == count_of(cells@, c));
            if counts[v] > 1 {
                ok = false;
            }
            assert(ok == forall|c: Cell| c.is_set() && slot(c) < v + 1 ==> #[trigger] count_of(cells@, c) <= 1) by {
                assert forall|d: Cell| d.is_set() && slot(d) == v implies d == c by {}
            }
        }
        proof {
            lemma_no_duplicates_by_count(cells@);
        }
        ok
    }

    /// The first cell of `cells` that is not blank; a blank if there is none.
    pub fn get_first_seen(cells: &Vec<Cell>) -> (r: Cell)
        ensures
            r == first_seen(cells@),
    {
        assert(cells@.skip(0) =~= cells@);
        for i in 0..cells.len()
            invariant
                first_seen(cells@) == first_seen(cells@.skip(i as int)),
        {
            if cells[i] != Cell::Empty {
                return cells[i];
            }
            assert(cells@.skip(i as int).drop_first() =~= cells@.skip(i + 1));
        }
        assert(cells@.skip(cells@.len() as int).len() == 0);
        Cell::Empty
    }
}

/// A copy of `v`.
fn copy_cells(v: &Vec<Cell>) -> (r: Vec<Cell>)
    ensures
        r@ == v@,
{
    let mut r: Vec<Cell> = Vec::new();
    for i in 0..v.len()
        invariant
            r@ == v@.take(i as int),
    {
        r.push(v[i]);
        assert(r@ =~= v@.take(i + 1));
    }
    assert(r@ =~= v@);
    r
}

impl Puzzle {
    /// Clue rows of the board's side around a square board.
    pub open spec fn wf(&self) -> bool {
        self@.wf()
    }

    /// The board's side, as the board itself tells it.
    pub(crate) proof fn lemma_board_side(&self)
        requires
            self.wf(),
        ensures
            self.board.wf(),
            self.board.side_spec() == self@.size(),
    {
        let n = self@.size();
        assert(crate::board::is_side_of(n, self.board.cells@.len()));
        lemma_side_unique(self.board.side_spec(), n);
    }

    /// An independent copy of this puzzle.
    pub fn copy(&self) -> (r: Puzzle)
        ensures
            r@ == self@,
    {
        Puzzle {
            labels: (
                copy_cells(&self.labels.0),
                copy_cells(&self.labels.1),
                copy_cells(&self.labels.2),
                copy_cells(&self.labels.3),
            ),
            board: Board { cells: copy_cells(&self.board.cells) },
        }
    }

    /// Whether row or column `k` holds no set value twice.
    pub fn line_dupe_check(&self, ln: LineType, k: usize) -> (r: bool)
        requires
            self.wf(),
            k < self@.size(),
        ensures
            r == no_duplicates(self@.line(ln, k as nat)),
    {
        proof {
            self.lemma_board_side();
        }
        Puzzle::duplicate_check(&self.board.get_line(ln, k))
    }

    /// What is seen looking along row or column `k`, from its far end when
    /// `rev` is set.
    pub fn get_line_first_seen(&self, ln: LineType, k: usize, rev: bool) -> (r: Cell)
        requires
            self.wf(),
            k < self@.size(),
        ensures
            r == seen_from(self@.line(ln, k as nat), rev),
    {
        proof {
            self.lemma_board_side();
        }
        let line = self.board.get_line(ln, k);
        if rev {
            let mut back: Vec<Cell> = Vec::new();
            let mut i: usize = line.len();
            while i > 0
                invariant
                    i <= line@.len(),
                    back@ == line@.reverse().take(line@.len() - i),
                decreases i,
            {
                i = i - 1;
                back.push(line[i]);
                assert(back@ =~= line@.reverse().take(line@.len() - i));
            }
            assert(back@ =~= line@.reverse());
            Puzzle::get_first_seen(&back)
        } else {
            Puzzle::get_first_seen(&line)
        }
    }

    /// Checks the board against the rules: first every row and column for a
    /// value set twice (row `k`, then column `k`, for `k` upwards), then the
    /// clues (top, bottom, left, right for each index upwards). Reports the
    /// first broken rule; when none is broken, the solved puzzle if every
    /// cell is set, and that nothing is wrong yet otherwise.
    pub fn verify(&self) -> (r: Verification)
        requires
            self.wf(),
        ensures
            r@ == self@.verification(),
    {
        let n = self.labels.0.len();
        let mut k: usize = 0;
        while k < n
            invariant
                self.wf(),
                n == self@.size(),
                k <= n,
                self@.duplicate_failure_from(0) == self@.duplicate_failure_from(k as nat),
            decreases n - k,
        {
            if !self.line_dupe_check(LineType::Row, k) {
                return Verification::Fail(FailReason::DuplicateSymbol(LineType::Row, k));
            }
            if !self.line_dupe_check(LineType::Col, k) {
                return Verification::Fail(FailReason::DuplicateSymbol(LineType::Col, k));
            }
            k = k + 1;
        }
        let mut k: usize = 0;
        while k < n
            invariant
                self.wf(),
                n == self@.size(),
                k <= n,
                self@.duplicate_failure_from(0) is None,
                self@.clue_failure_from(0) == self@.clue_failure_from(k as nat),
            decreases n - k,
        {
            let seen_top = self.get_line_first_seen(LineType::Col, k, false);
            let seen_bot = self.get_line_first_seen(LineType::Col, k, true);
            let seen_left = self.get_line_first_seen(LineType::Row, k, false);
            let seen_right = self.get_line_first_seen(LineType::Row, k, true);
            if !Puzzle::clue_check(self.labels.0[k], seen_top) {
                return Verification::Fail(FailReason::ClueViolated(LineType::Col, k, false));
            }
            if !Puzzle::clue_check(self.labels.1[k], seen_bot) {
                return Verification::Fail(FailReason::ClueViolated(LineType::Col, k, true));
            }
            if !Puzzle::clue_check(self.labels.2[k], seen_left) {
                return Verification::Fail(FailReason::ClueViolated(LineType::Row, k, false));
            }
            if !Puzzle::clue_check(self.labels.3[k], seen_right) {
                return Verification::Fail(FailReason::ClueViolated(LineType::Row, k, true));
            }
            k = k + 1;
        }
        if self.board.is_filled() {
            Verification::Solution(self.copy())
        } else {
            Verification::VerOk
        }
    }

    /// Whether a clue holds against what its line shows.
    pub fn clue_check(label: Cell, seen: Cell) -> (r: bool)
        ensures
            r == clue_holds(label, seen),
    {
        label == Cell::Unknown || seen == label || seen == Cell::Unknown
    }
}

/// The worked example: a five by five puzzle with an empty board.
pub fn test_puzzle() -> (r: Puzzle)
    ensures
        r.wf(),
        r@.top == seq![Cell::ValB, Cell::ValA, Cell::ValD, Cell::ValB, Cell::ValC],
        r@.bot == seq![Cell::ValA, Cell::ValB, Cell::Unknown, Cell::Unknown, Cell::ValB],
        r@.left == seq![Cell::ValB, Cell::ValD, Cell::ValC, Cell::Unknown, Cell::Unknown],
        r@.right == seq![Cell::ValC, Cell::ValA, Cell::Unknown, Cell::ValB, Cell::ValD],
        r@.cells == Seq::new(25, |i: int| Cell::Unknown),
{
    let r = Puzzle {
        labels: (
            vec![Cell::ValB, Cell::ValA, Cell::ValD, Cell::ValB, Cell::ValC],
            vec![Cell::ValA, Cell::ValB, Cell::Unknown, Cell::Unknown, Cell::ValB],
            vec![Cell::ValB, Cell::ValD, Cell::ValC, Cell::Unknown, Cell::Unknown],
            vec![Cell::ValC, Cell::ValA, Cell::Unknown, Cell::ValB, Cell::ValD],
        ),
        board: Board::new(5),
    };
    assert(r@.top =~= seq![Cell::ValB, Cell::ValA, Cell::ValD, Cell::ValB, Cell::ValC]);
    assert(r@.bot =~= seq![Cell::ValA, Cell::ValB, Cell::Unknown, Cell::Unknown, Cell::ValB]);
    assert(r@.left =~= seq![Cell::ValB, Cell::ValD, Cell::ValC, Cell::Unknown, Cell::Unknown]);
    assert(r@.right =~= seq![Cell::ValC, Cell::ValA, Cell::Unknown, Cell::ValB, Cell::ValD]);
    r
}

/// The duplicate checks from index `k` on find nothing exactly when each of
/// them passes.
proof fn lemma_duplicate_failure_from(p: PuzzleView, k: nat)
    ensures
        p.duplicate_failure_from(k) is None <==> forall|j: nat|
            k <= j < p.size() ==> #[trigger] p.dupes_ok(j),
    decreases p.size() - k,
{
    if k < p.size() {
        lemma_duplicate_failure_from(p, k + 1);
        if p.duplicate_failure_from(k) is None {
            assert forall|j: nat| k <= j < p.size() implies #[trigger] p.dupes_ok(j) by {
                if j > k {
                    assert(p.dupes_ok(j));
                }
            }
        }
        if forall|j: nat| k <= j < p.size() ==> #[trigger] p.dupes_ok(j) {
            assert(p.dupes_ok(k));
            assert forall|j: nat| k + 1 <= j < p.size() implies #[trigger] p.dupes_ok(j) by {}
        }
    }
}

/// The clue checks from index `k` on find nothing exactly when each of them
/// passes.
proof fn lemma_clue_failure_from(p: PuzzleView, k: nat)
    ensures
        p.clue_failure_from(k) is None <==> forall|j: nat|
            k <= j < p.size() ==> #[trigger] p.clues_ok(j),
    decreases p.size() - k,
{
    if k < p.size() {
        lemma_clue_failure_from(p, k + 1);
        if p.clue_failure_from(k) is None {
            assert forall|j: nat| k <= j < p.size() implies #[trigger] p.clues_ok(j) by {
                if j > k {
                    assert(p.clues_ok(j));
                }
            }
        }
        if forall|j: nat| k <= j < p.size() ==> #[trigger] p.clues_ok(j) {
            assert(p.clues_ok(k));
            assert forall|j: nat| k + 1 <= j < p.size() implies #[trigger] p.clues_ok(j) by {}
        }
    }
}

/// Checking in the fixed order finds no broken rule exactly when every
/// duplicate check and every clue check passes on its own.
pub proof fn lemma_no_failure_iff_all_pass(p: PuzzleView)
    ensures
        p.first_failure() is None <==> p.all_checks_pass(),
{
    lemma_duplicate_failure_from(p, 0);
    lemma_clue_failure_from(p, 0);
    if p.all_checks_pass() {
        assert forall|j: nat| 0 <= j < p.size() implies #[trigger] p.dupes_ok(j) by {
            assert(p.dupes_ok(j) && p.clues_ok(j));
        }
        assert forall|j: nat| 0 <= j < p.size() implies #[trigger] p.clues_ok(j) by {
            assert(p.dupes_ok(j) && p.clues_ok(j));
        }
    }
    if p.first_failure() is None {
        assert forall|k: nat| k < p.size() implies #[trigger] p.dupes_ok(k) && p.clues_ok(k) by {
            assert(p.dupes_ok(k));
            assert(p.clues_ok(k));
        }
    }
}

/// When the verifier reports a solution, every cell of the board is set and
/// every duplicate check and every clue check passes when run again on its
/// own; the solution reported is the puzzle itself.
pub proof fn lemma_solved_fully_assigned(p: PuzzleView)
    requires
        p.verification() is Solution,
    ensures
        all_set(p.cells),
        p.all_checks_pass(),
        p.verification() == VerificationView::Solution(p),
{
    lemma_no_failure_iff_all_pass(p);
}

/// Checking depends on the puzzle's clues and cells alone: two puzzles with
/// the same clues and cells, or one puzzle checked twice, get the same
/// outcome. Checking borrows the puzzle immutably and so leaves it as it was.
pub proof fn lemma_verify_deterministic(p: Puzzle, q: Puzzle)
    requires
        p@ == q@,
    ensures
        p@.verification() == q@.verification(),
{
}

/// A completion keeps every set value of each line in place.
proof fn lemma_line_agrees(q: PuzzleView, p: PuzzleView, ln: LineType, k: nat)
    requires
        p.wf(),
        q.completes(p),
        k < p.size(),
    ensures
        agrees_with(q.line(ln, k), p.line(ln, k)),
{
    let n = p.size();
    assert forall|x: int| 0 <= x < n && #[trigger] p.line(ln, k)[x].is_set() implies q.line(ln, k)[x]
        == p.line(ln, k)[x] by {
        crate::board::lemma_cell_index_bound(n, ln, k, x as nat);
        assert(p.cells[crate::board::cell_index(n, ln, k, x as nat) as int].is_set());
    }
}

/// A broken rule stays broken however the unknown cells are filled: what
/// fails on a board fails on every board that completes it.
pub proof fn lemma_failure_persists(q: PuzzleView, p: PuzzleView)
    requires
        p.wf(),
        q.completes(p),
        q.all_checks_pass(),
    ensures
        p.all_checks_pass(),
{
    assert forall|k: nat| k < p.size() implies #[trigger] p.dupes_ok(k) && p.clues_ok(k) by {
        assert(q.size() == p.size());
        assert(q.all_checks_pass());
        assert(q.dupes_ok(k));
        assert(q.clues_ok(k));
        lemma_line_agrees(q, p, LineType::Row, k);
        lemma_line_agrees(q, p, LineType::Col, k);
        let row = p.line(LineType::Row, k);
        let col = p.line(LineType::Col, k);
        let qrow = q.line(LineType::Row, k);
        let qcol = q.line(LineType::Col, k);
        assert forall|i: int, j: int| 0 <= i < j < row.len() && row[i].is_set() implies row[i]
            != row[j] by {
            if row[i] == row[j] {
                assert(qrow[i] == qrow[j]);
            }
        }
        assert forall|i: int, j: int| 0 <= i < j < col.len() && col[i].is_set() implies col[i]
            != col[j] by {
            if col[i] == col[j] {
                assert(qcol[i] == qcol[j]);
            }
        }
        lemma_agrees_reverse(row, qrow);
        lemma_agrees_reverse(col, qcol);
        if first_seen(col).is_set() {
            lemma_first_seen_stable(col, qcol);
        }
        if first_seen(col.reverse()).is_set() {
            lemma_first_seen_stable(col.reverse(), qcol.reverse());
        }
        if first_seen(row).is_set() {
            lemma_first_seen_stable(row, qrow);
        }
        if first_seen(row.reverse()).is_set() {
            lemma_first_seen_stable(row.reverse(), qrow.reverse());
        }
    }
}

} // verus!
