use vstd::prelude::*;
use vstd::string::StringExecFns;

use crate::cell::{symbol_spec, Cell, LineType};
use crate::puzzle::{FailReason, Puzzle, PuzzleView, Verification, VerificationView};

verus! {

/// The name of a kind of line.
pub open spec fn line_type_text(ln: LineType) -> Seq<char> {
    match ln {
        LineType::Row => seq!['R', 'o', 'w'],
        LineType::Col => seq!['C', 'o', 'l'],
    }
}

/// The character of a decimal digit.
pub open spec fn digit_char(d: nat) -> char {
    if d == 0 {
        '0'
    } else if d == 1 {
        '1'
    } else if d == 2 {
        '2'
    } else if d == 3 {
        '3'
    } else if d == 4 {
        '4'
    } else if d == 5 {
        '5'
    } else if d == 6 {
        '6'
    } else if d == 7 {
        '7'
    } else if d == 8 {
        '8'
    } else {
        '9'
    }
}

/// `n` written in decimal, without leading zeros.
pub open spec fn decimal(n: nat) -> Seq<char>
    decreases n,
{
    if n < 10 {
        seq![digit_char(n)]
    } else {
        decimal(n / 10) + seq![digit_char(n % 10)]
    }
}

/// What a broken rule is called.
pub open spec fn fail_description(f: FailReason) -> Seq<char> {
    match f {
        FailReason::DuplicateSymbol(_, _) => "Duplicate symbol"@,
        FailReason::ClueViolated(LineType::Col, _, false) => "Top clue violated"@,
        FailReason::ClueViolated(LineType::Col, _, true) => "Bottom clue violated"@,
        FailReason::ClueViolated(LineType::Row, _, false) => "Left clue violated"@,
        FailReason::ClueViolated(LineType::Row, _, true) => "Right clue violated"@,
    }
}

/// A broken rule and where it is broken, as in "Duplicate symbol in Row 2".
pub open spec fn fail_text(f: FailReason) -> Seq<char> {
    let (ln, k) = match f {
        FailReason::DuplicateSymbol(ln, k) => (ln, k),
        FailReason::ClueViolated(ln, k, _) => (ln, k),
    };
    fail_description(f) + " in "@ + line_type_text(ln) + " "@ + decimal(k as nat)
}

/// A short account of a check's outcome.
pub open spec fn verification_text(v: VerificationView) -> Seq<char> {
    match v {
        VerificationView::VerOk => "Ok"@,
        VerificationView::Fail(f) => "Failed: "@ + fail_text(f),
        VerificationView::Solution(_) => "Solved"@,
    }
}

/// Appends the decimal digits of `n`.
fn push_decimal(out: &mut String, n: usize)
    ensures
        final(out)@ == old(out)@ + decimal(n as nat),
    decreases n,
{
    if n >= 10 {
        push_decimal(out, n / 10);
    }
    let d = n % 10;
    let digit = if d == 0 {
        "0"
    } else if d == 1 {
        "1"
    } else if d == 2 {
        "2"
    } else if d == 3 {
        "3"
    } else if d == 4 {
        "4"
    } else if d == 5 {
        "5"
    } else if d == 6 {
        "6"
    } else if d == 7 {
        "7"
    } else if d == 8 {
        "8"
    } else {
        "9"
    };
    proof {
        reveal_strlit("0");
        reveal_strlit("1");
        reveal_strlit("2");
        reveal_strlit("3");
        reveal_strlit("4");
        reveal_strlit("5");
        reveal_strlit("6");
        reveal_strlit("7");
        reveal_strlit("8");
        reveal_strlit("9");
    }
    assert(digit@ =~= seq![digit_char(d as nat)]);
    out.append(digit);
    assert(out@ =~= old(out)@ + decimal(n as nat));
}

impl LineType {
    /// "Row" or "Col".
    pub fn to_string(&self) -> (r: String)
        ensures
            r@ == line_type_text(*self),
    {
        proof {
            reveal_strlit("Row");
            reveal_strlit("Col");
        }
        let r = match self {
            LineType::Row => String::from_str("Row"),
            LineType::Col => String::from_str("Col"),
        };
        assert(r@ =~= line_type_text(*self));
        r
    }
}

impl FailReason {
    /// The rule that is broken and the line where, as in
    /// "Top clue violated in Col 1".
    pub fn to_string(&self) -> (r: String)
        ensures
            r@ == fail_text(*self),
    {
        let (ln, k) = match self {
            FailReason::DuplicateSymbol(ln, k) => (*ln, *k),
            FailReason::ClueViolated(ln, k, _) => (*ln, *k),
        };
        let mut r = match self {
            FailReason::DuplicateSymbol(_, _) => String::from_str("Duplicate symbol"),
            FailReason::ClueViolated(LineType::Col, _, false) => String::from_str("Top clue violated"),
            FailReason::ClueViolated(LineType::Col, _, true) => String::from_str(
                "Bottom clue violated",
            ),
            FailReason::ClueViolated(LineType::Row, _, false) => String::from_str(
                "Left clue violated",
            ),
            FailReason::ClueViolated(LineType::Row, _, true) => String::from_str(
                "Right clue violated",
            ),
        };
        r.append(" in ");
        let name = ln.to_string();
        r.append(name.as_str());
        r.append(" ");
        push_decimal(&mut r, k);
        r
    }
}

impl Verification {
    /// "Ok", "Solved", or "Failed: " and the broken rule.
    pub fn to_string(&self) -> (r: String)
        ensures
            r@ == verification_text(self@),
    {
        match self {
            Verification::VerOk => String::from_str("Ok"),
            Verification::Fail(reason) => {
                let mut r = String::from_str("Failed: ");
                let text = reason.to_string();
                r.append(text.as_str());
                r
            },
            Verification::Solution(_) => String::from_str("Solved"),
        }
    }
}

/// The symbols of `s` with a space between each two.
pub open spec fn joined(s: Seq<Cell>) -> Seq<char>
    decreases s.len(),
{
    if s.len() == 0 {
        seq![]
    } else if s.len() == 1 {
        seq![symbol_spec(s[0])]
    } else {
        joined(s.drop_last()) + seq![' ', symbol_spec(s.last())]
    }
}

/// The horizontal edge of the frame around a board of side `n`.
pub open spec fn frame_edge(n: nat) -> Seq<char> {
    Seq::new(if n == 0 {
        0
    } else {
        (2 * n - 1) as nat
    }, |i: int| '─')
}

/// Row `i` of the board between its left and right clue.
pub open spec fn row_text(p: PuzzleView, i: nat) -> Seq<char> {
    seq![symbol_spec(p.left[i as int]), '│'] + joined(p.line(LineType::Row, i)) + seq![
        '│',
        symbol_spec(p.right[i as int]),
        '\n',
    ]
}

/// The first `k` rows of the board, one per line.
pub open spec fn rows_text(p: PuzzleView, k: nat) -> Seq<char>
    decreases k,
{
    if k == 0 {
        seq![]
    } else {
        rows_text(p, (k - 1) as nat) + row_text(p, (k - 1) as nat)
    }
}

/// The puzzle drawn as a framed board with its clues on the four sides.
pub open spec fn puzzle_text(p: PuzzleView) -> Seq<char> {
    seq![' ', ' '] + joined(p.top) + seq![' ', ' ', '\n'] + seq![' ', '┌'] + frame_edge(p.size())
        + seq!['┐', ' ', '\n'] + rows_text(p, p.size()) + seq![' ', '└'] + frame_edge(p.size())
        + seq!['┘', ' ', '\n'] + seq![' ', ' '] + joined(p.bot) + seq![' ', ' ', '\n']
}

/// Appends the symbols of `cells` with a space between each two.
fn push_joined(out: &mut String, cells: &Vec<Cell>)
    ensures
        final(out)@ == old(out)@ + joined(cells@),
{
    proof {
        reveal_strlit(" ");
    }
    assert(" "@ =~= seq![' ']);
    let ghost start = out@;
    for i in 0..cells.len()
        invariant
            out@ == start + joined(cells@.take(i as int)),
            start == old(out)@,
            " "@ == seq![' '],
    {
        let ghost before = out@;
        if i > 0 {
            out.append(" ");
        }
        let text = cells[i].to_string();
        out.append(text.as_str());
        let ghost now = cells@.take(i + 1);
        assert(now.drop_last() =~= cells@.take(i as int));
        assert(now.last() == cells@[i as int]);
        if i == 0 {
            assert(joined(now) == seq![symbol_spec(cells@[0])]);
            assert(out@ =~= start + joined(now));
        } else {
            assert(joined(now) == joined(cells@.take(i as int)) + seq![' ', symbol_spec(cells@[i as int])]);
            assert(out@ =~= before + seq![' ', symbol_spec(cells@[i as int])]);
            assert(out@ =~= start + joined(now));
        }
    }
    assert(cells@.take(cells@.len() as int) =~= cells@);
}

/// Appends the horizontal edge of the frame around a board of side `n`.
fn push_frame_edge(out: &mut String, n: usize)
    requires
        n * n <= usize::MAX,
    ensures
        final(out)@ == old(out)@ + frame_edge(n as nat),
{
    proof {
        reveal_strlit("─");
    }
    assert("─"@ =~= seq!['─']);
    let ghost start = out@;
    assert(n == 0 || n + (n - 1) <= n * n) by (nonlinear_arith);
    let len: usize = if n == 0 {
        0
    } else {
        n + (n - 1)
    };
    for i in 0..len
        invariant
            out@ == start + Seq::new(i as nat, |j: int| '─'),
            start == old(out)@,
            "─"@ == seq!['─'],
    {
        let ghost before = out@;
        out.append("─");
        assert(out@ =~= before + seq!['─']);
        assert(out@ =~= start + Seq::new((i + 1) as nat, |j: int| '─'));
    }
    assert(frame_edge(n as nat) =~= Seq::new(len as nat, |j: int| '─'));
}

impl Puzzle {
    /// The puzzle drawn as a framed board with the top clues above it, the
    /// bottom clues below, and each row's left and right clue beside it.
    pub fn to_string(&self) -> (r: String)
        requires
            self.wf(),
        ensures
            r@ == puzzle_text(self@),
    {
        proof {
            reveal_strlit("  ");
            reveal_strlit("  \n");
            reveal_strlit(" ┌");
            reveal_strlit("┐ \n");
            reveal_strlit(" └");
            reveal_strlit("┘ \n");
            reveal_strlit("│");
            reveal_strlit("\n");
            self.lemma_board_side();
        }
        assert("│"@ =~= seq!['│']);
        assert("\n"@ =~= seq!['\n']);
        let n = self.labels.0.len();
        let total = self.board.cells.len();
        assert(n * n == total);
        let mut out = String::new();
        out.append("  ");
        push_joined(&mut out, &self.labels.0);
        out.append("  \n");
        out.append(" ┌");
        push_frame_edge(&mut out, n);
        out.append("┐ \n");
        let ghost head = out@;
        for i in 0..n
            invariant
                self.wf(),
                n == self@.size(),
                self.board.wf(),
                self.board.side_spec() == n,
                out@ == head + rows_text(self@, i as nat),
                "│"@ == seq!['│'],
                "\n"@ == seq!['\n'],
        {
            let ghost before = out@;
            let left = self.labels.2[i].to_string();
            out.append(left.as_str());
            out.append("│");
            let row = self.board.get_line(LineType::Row, i);
            push_joined(&mut out, &row);
            out.append("│");
            let right = self.labels.3[i].to_string();
            out.append(right.as_str());
            out.append("\n");
            assert(row@ == self@.line(LineType::Row, i as nat));
            assert(out@ =~= before + row_text(self@, i as nat));
            assert(rows_text(self@, (i + 1) as nat) == rows_text(self@, i as nat) + row_text(self@, i as nat));
            assert(out@ =~= head + rows_text(self@, (i + 1) as nat));
        }
        out.append(" └");
        push_frame_edge(&mut out, n);
        out.append("┘ \n");
        out.append("  ");
        push_joined(&mut out, &self.labels.1);
        out.append("  \n");
        assert(out@ =~= puzzle_text(self@));
        out
    }
}

} // verus!
