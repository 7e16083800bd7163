use vstd::prelude::*;

use crate::cell::Cell;

verus! {

/// How often `c` occurs in `s`.
pub open spec fn count_of(s: Seq<Cell>, c: Cell) -> nat
    decreases s.len(),
{
    if s.len() == 0 {
        0
    } else {
        count_of(s.drop_last(), c) + if s.last() == c {
            1nat
        } else {
            0nat
        }
    }
}

/// No value that has been set (a letter or a blank) occurs twice in the line;
/// unknown cells are not looked at.
pub open spec fn no_duplicates(line: Seq<Cell>) -> bool {
    forall|i: int, j: int|
        #![trigger line[i], line[j]]
        0 <= i < j < line.len() && line[i].is_set() ==> line[i] != line[j]
}

/// The first cell that is not blank, scanning the line from its start; a line
/// that is blank all through shows a blank. An unknown cell met before any
/// letter is what is seen: the clue cannot be judged yet.
pub open spec fn first_seen(line: Seq<Cell>) -> Cell
    decreases line.len(),
{
    if line.len() == 0 {
        Cell::Empty
    } else if line[0] == Cell::Empty {
        first_seen(line.drop_first())
    } else {
        line[0]
    }
}

/// What is seen from the near end of a line (`far == false`) or from its far
/// end (`far == true`).
pub open spec fn seen_from(line: Seq<Cell>, far: bool) -> Cell {
    if far {
        first_seen(line.reverse())
    } else {
        first_seen(line)
    }
}

/// A clue is met when it is absent, when what is seen is the clue, or when
/// what is seen is still undecided.
pub open spec fn clue_holds(label: Cell, seen: Cell) -> bool {
    label == Cell::Unknown || seen == label || seen == Cell::Unknown
}

/// The position of a value's counter in the duplicate check.
pub open spec fn slot(c: Cell) -> int {
    match c {
        Cell::ValA => 0,
        Cell::ValB => 1,
        Cell::ValC => 2,
        Cell::ValD => 3,
        Cell::Empty => 4,
        Cell::Unknown => 5,
    }
}

/// The value whose counter sits at position `v`.
pub open spec fn slot_cell(v: int) -> Cell {
    if v == 0 {
        Cell::ValA
    } else if v == 1 {
        Cell::ValB
    } else if v == 2 {
        Cell::ValC
    } else if v == 3 {
        Cell::ValD
    } else {
        Cell::Empty
    }
}

impl Cell {
    /// The position of this value's counter in the duplicate check.
    pub fn slot_index(&self) -> (r: usize)
        requires
            self.is_set(),
        ensures
            r == slot(*self),
    {
        match self {
            Cell::ValA => 0,
            Cell::ValB => 1,
            Cell::ValC => 2,
            Cell::ValD => 3,
            _ => 4,
        }
    }
}

/// Two equal set values at different places count at least twice.
pub proof fn lemma_pair_counts_twice(s: Seq<Cell>, i: int, j: int)
    requires
        0 <= i < j < s.len(),
        s[i] == s[j],
    ensures
        count_of(s, s[i]) >= 2,
    decreases s.len(),
{
    let p = s.drop_last();
    if j == s.len() - 1 {
        lemma_present_counts(p, i);
    } else {
        lemma_pair_counts_twice(p, i, j);
    }
}

/// A value that occurs counts at least once.
pub proof fn lemma_present_counts(s: Seq<Cell>, i: int)
    requires
        0 <= i < s.len(),
    ensures
        count_of(s, s[i]) >= 1,
    decreases s.len(),
{
    if i < s.len() - 1 {
        lemma_present_counts(s.drop_last(), i);
    }
}

/// A value counted twice occurs at two different places.
pub proof fn lemma_twice_counted_pair(s: Seq<Cell>, c: Cell) -> (ij: (int, int))
    requires
        count_of(s, c) >= 2,
    ensures
        0 <= ij.0 < ij.1 < s.len(),
        s[ij.0] == c,
        s[ij.1] == c,
    decreases s.len(),
{
    let p = s.drop_last();
    if s.last() == c {
        let i = lemma_counted_present(p, c);
        (i, s.len() - 1)
    } else {
        lemma_twice_counted_pair(p, c)
    }
}

/// A value counted at least once occurs.
pub proof fn lemma_counted_present(s: Seq<Cell>, c: Cell) -> (i: int)
    requires
        count_of(s, c) >= 1,
    ensures
        0 <= i < s.len(),
        s[i] == c,
    decreases s.len(),
{
    if s.last() == c {
        s.len() - 1
    } else {
        lemma_counted_present(s.drop_last(), c)
    }
}

/// A line is free of duplicates exactly when each set value is counted at
/// most once.
pub proof fn lemma_no_duplicates_by_count(line: Seq<Cell>)
    ensures
        no_duplicates(line) <==> forall|c: Cell| c.is_set() ==> #[trigger] count_of(line, c) <= 1,
{
    if no_duplicates(line) {
        assert forall|c: Cell| c.is_set() implies #[trigger] count_of(line, c) <= 1 by {
            if count_of(line, c) >= 2 {
                let ij = lemma_twice_counted_pair(line, c);
                assert(line[ij.0] != line[ij.1]);
            }
        }
    }
    if forall|c: Cell| c.is_set() ==> #[trigger] count_of(line, c) <= 1 {
        assert forall|i: int, j: int|
            0 <= i < j < line.len() && line[i].is_set() implies line[i] != line[j] by {
            if line[i] == line[j] {
                lemma_pair_counts_twice(line, i, j);
                assert(count_of(line, line[i]) <= 1);
            }
        }
    }
}

/// A second occurrence of a set value, put anywhere else in a line, breaks
/// the line's duplicate check.
pub proof fn lemma_second_occurrence_fails(line: Seq<Cell>, i: int, j: int)
    requires
        0 <= i < line.len(),
        0 <= j < line.len(),
        i != j,
        line[i].is_set(),
    ensures
        !no_duplicates(line.update(j, line[i])),
{
    let u = line.update(j, line[i]);
    if i < j {
        assert(u[i] == u[j]);
    } else {
        assert(u[j] == u[i]);
    }
}

/// Every value set in `s` stands at the same place in `t`.
pub open spec fn agrees_with(t: Seq<Cell>, s: Seq<Cell>) -> bool {
    &&& t.len() == s.len()
    &&& forall|i: int| 0 <= i < s.len() && #[trigger] s[i].is_set() ==> t[i] == s[i]
}

/// Once a letter or an all-blank line is seen, setting more cells does not
/// change what is seen.
pub proof fn lemma_first_seen_stable(s: Seq<Cell>, t: Seq<Cell>)
    requires
        agrees_with(t, s),
        first_seen(s).is_set(),
    ensures
        first_seen(t) == first_seen(s),
    decreases s.len(),
{
    if s.len() > 0 {
        assert(s[0].is_set());
        if s[0] == Cell::Empty {
            assert(t[0] == Cell::Empty);
            assert forall|i: int|
                0 <= i < s.drop_first().len() && #[trigger] s.drop_first()[i].is_set() implies t.drop_first()[i]
                == s.drop_first()[i] by {
                assert(s[i + 1].is_set());
            }
            lemma_first_seen_stable(s.drop_first(), t.drop_first());
        }
    }
}

/// Agreement carries over to the reversed lines.
pub proof fn lemma_agrees_reverse(s: Seq<Cell>, t: Seq<Cell>)
    requires
        agrees_with(t, s),
    ensures
        agrees_with(t.reverse(), s.reverse()),
{
    assert forall|i: int|
        0 <= i < s.reverse().len() && #[trigger] s.reverse()[i].is_set() implies t.reverse()[i]
        == s.reverse()[i] by {
        assert(s[s.len() - 1 - i].is_set());
    }
}

} // verus!
