use vstd::prelude::*;

use crate::board::all_set;
use crate::cell::Cell;
use crate::line::{count_of, slot, slot_cell};
use crate::puzzle::{
    lemma_failure_persists, lemma_no_failure_iff_all_pass, Puzzle,
    PuzzleView, Verification, VerificationView,
};

verus! {

/// Giving an unknown cell a value leaves one unknown cell fewer.
proof fn lemma_count_after_update(s: Seq<Cell>, i: int, v: Cell)
    requires
        0 <= i < s.len(),
        s[i] == Cell::Unknown,
        v != Cell::Unknown,
    ensures
        count_of(s.update(i, v), Cell::Unknown) + 1 == count_of(s, Cell::Unknown),
    decreases s.len(),
{
    let u = s.update(i, v);
    if i == s.len() - 1 {
        assert(u.drop_last() =~= s.drop_last());
    } else {
        lemma_count_after_update(s.drop_last(), i, v);
        assert(u.drop_last() =~= s.drop_last().update(i, v));
    }
}

/// Nothing that completes `p` is a solution.
pub open spec fn no_solution_completes(p: PuzzleView) -> bool {
    forall|q: PuzzleView| #[trigger] q.completes(p) ==> !q.is_solution()
}

/// What the search may return for `p`: a solution that completes it, or
/// nothing when no solution completes it.
pub open spec fn search_outcome(p: PuzzleView, r: Option<PuzzleView>) -> bool {
    match r {
        Some(q) => q.completes(p) && q.is_solution() && q.verification()
            == VerificationView::Solution(q),
        None => no_solution_completes(p),
    }
}

/// The view of an optional puzzle.
pub open spec fn view_of(r: Option<Puzzle>) -> Option<PuzzleView> {
    match r {
        Some(q) => Some(q@),
        None => None,
    }
}

/// Depth-first search from a puzzle on which no rule is broken yet: the
/// first unknown cell is given each letter in turn, then a blank, and each
/// choice that breaks no rule is searched further. The first solution found
/// is returned.
fn solvestep(p: &Puzzle) -> (r: Option<Puzzle>)
    requires
        p.wf(),
        p@.verification() == VerificationView::VerOk,
    ensures
        search_outcome(p@, view_of(r)),
    decreases count_of(p@.cells, Cell::Unknown),
{
    let i = match p.board.first_unknown() {
        Some(i) => i,
        None => return None,
    };
    let marks: Vec<Cell> = vec![Cell::ValA, Cell::ValB, Cell::ValC, Cell::ValD, Cell::Empty];
    assert(marks@ =~= Seq::new(5, |t: int| slot_cell(t)));
    for t in 0..5
        invariant
            p.wf(),
            p@.verification() == VerificationView::VerOk,
            i < p@.cells.len(),
            p@.cells[i as int] == Cell::Unknown,
            marks@ == Seq::new(5, |t: int| slot_cell(t)),
            forall|q: PuzzleView|
                #[trigger] q.completes(p@) && q.is_solution() ==> slot(q.cells[i as int]) >= t,
    {
        let mark = marks[t];
        let mut puz = p.copy();
        puz.board.cells.set(i, mark);
        let ghost c = puz@;
        assert(c.completes(p@));
        proof {
            lemma_count_after_update(p@.cells, i as int, mark);
        }
        let verdict = puz.verify();
        proof {
            lemma_no_failure_iff_all_pass(c);
        }
        // Any solution that completes p and holds this mark at i completes c.
        assert forall|q: PuzzleView|
            #[trigger] q.completes(p@) && q.is_solution() && slot(q.cells[i as int]) == t implies q.completes(c) by {
            assert(q.cells[i as int].is_set());
            assert(q.cells[i as int] == mark);
        }
        match verdict {
            Verification::VerOk => {
                match solvestep(&puz) {
                    None => {},
                    Some(s) => {
                        return Some(s);
                    },
                }
            },
            Verification::Fail(_) => {
                assert forall|q: PuzzleView|
                    #[trigger] q.completes(c) implies !q.is_solution() by {
                    if q.is_solution() {
                        lemma_failure_persists(q, c);
                    }
                }
            },
            Verification::Solution(sol) => {
                return Some(sol);
            },
        }
    }
    assert forall|q: PuzzleView| #[trigger] q.completes(p@) implies !q.is_solution() by {
        if q.is_solution() {
            assert(q.cells[i as int].is_set());
        }
    }
    None
}

/// Solves a puzzle by exhaustive depth-first search. The result, if any, is
/// a complete board that keeps every rule and every value set on the given
/// board; nothing is returned only when no such board exists.
pub fn solve(puz: Puzzle) -> (r: Option<Puzzle>)
    requires
        puz.wf(),
    ensures
        search_outcome(puz@, view_of(r)),
{
    proof {
        lemma_no_failure_iff_all_pass(puz@);
    }
    match puz.verify() {
        Verification::VerOk => solvestep(&puz),
        Verification::Fail(_) => {
            assert forall|q: PuzzleView| #[trigger] q.completes(puz@) implies !q.is_solution() by {
                if q.is_solution() {
                    lemma_failure_persists(q, puz@);
                }
            }
            None
        },
        Verification::Solution(sol) => Some(sol),
    }
}

} // verus!
