use vstd::prelude::*;
use vstd::string::StrSliceExecFns;

verus! {

/// The value held by one square of the board, or by one edge clue.
#[derive(Clone, Copy, Debug, PartialEq, Eq, Structural)]
pub enum Cell {
    ValA,
    ValB,
    ValC,
    ValD,
    /// A square that is deliberately left blank: it is seen through.
    Empty,
    /// A square (or clue) that holds no value yet.
    Unknown,
}

/// Which kind of line of the board is meant.
#[derive(Clone, Copy, Debug, PartialEq, Eq, Structural)]
pub enum LineType {
    Row,
    Col,
}

/// The cell that a one-character text names, if any.
pub open spec fn parse_spec(s: Seq<char>) -> Result<Cell, ()> {
    if s.len() != 1 {
        Err(())
    } else if s[0] == 'A' {
        Ok(Cell::ValA)
    } else if s[0] == 'B' {
        Ok(Cell::ValB)
    } else if s[0] == 'C' {
        Ok(Cell::ValC)
    } else if s[0] == 'D' {
        Ok(Cell::ValD)
    } else if s[0] == ' ' {
        Ok(Cell::Unknown)
    } else {
        Err(())
    }
}

/// The character that shows a cell on screen.
pub open spec fn symbol_spec(c: Cell) -> char {
    match c {
        Cell::ValA => 'A',
        Cell::ValB => 'B',
        Cell::ValC => 'C',
        Cell::ValD => 'D',
        Cell::Empty => '*',
        Cell::Unknown => ' ',
    }
}

impl Cell {
    /// Whether the cell has been given a value (a letter or a blank).
    pub open spec fn is_set(self) -> bool {
        self != Cell::Unknown
    }

    /// Reads a cell from its one-letter name; a single space stands for an
    /// unknown cell.
    pub fn parse(s: &str) -> (r: Result<Cell, ()>)
        ensures
            r == parse_spec(s@),
    {
        if s.unicode_len() != 1 {
            return Err(());
        }
        let c = s.get_char(0);
        if c == 'A' {
            Ok(Cell::ValA)
        } else if c == 'B' {
            Ok(Cell::ValB)
        } else if c == 'C' {
            Ok(Cell::ValC)
        } else if c == 'D' {
            Ok(Cell::ValD)
        } else if c == ' ' {
            Ok(Cell::Unknown)
        } else {
            Err(())
        }
    }

    /// The one-character text that shows this cell.
    pub fn to_string(&self) -> (r: String)
        ensures
            r@ == seq![symbol_spec(*self)],
    {
        let text = match self {
            Cell::ValA => "A",
            Cell::ValB => "B",
            Cell::ValC => "C",
            Cell::ValD => "D",
            Cell::Empty => "*",
            Cell::Unknown => " ",
        };
        proof {
            reveal_strlit("A");
            reveal_strlit("B");
            reveal_strlit("C");
            reveal_strlit("D");
            reveal_strlit("*");
            reveal_strlit(" ");
        }
        let r = text.to_owned();
        assert(r@ =~= seq![symbol_spec(*self)]);
        r
    }

    /// The character that shows this cell.
    pub fn symbol(&self) -> (r: char)
        ensures
            r == symbol_spec(*self),
    {
        match self {
            Cell::ValA => 'A',
            Cell::ValB => 'B',
            Cell::ValC => 'C',
            Cell::ValD => 'D',
            Cell::Empty => '*',
            Cell::Unknown => ' ',
        }
    }
}

impl std::str::FromStr for Cell {
    type Err = ();

    fn from_str(s: &str) -> Result<Cell, ()> {
        Cell::parse(s)
    }
}

} // verus!
