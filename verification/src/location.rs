//! Source positions and half-open spans.

use vstd::prelude::*;

verus! {

/// A point in the source text. All three components are zero-based and count
/// Unicode scalar values.
#[derive(PartialEq, Eq, Structural, Clone, Copy, Debug)]
pub struct Position {
    pub row: usize,
    pub col: usize,
    pub pos: usize,
}

impl Position {
    pub fn new(row: usize, col: usize, pos: usize) -> (p: Position)
        ensures
            p == (Position { row, col, pos }),
    {
        Position { row, col, pos }
    }

    /// Builds a position from a `(row, col, pos)` triple.
    pub fn new2(elts: (usize, usize, usize)) -> (p: Position)
        ensures
            p == (Position { row: elts.0, col: elts.1, pos: elts.2 }),
    {
        Position { row: elts.0, col: elts.1, pos: elts.2 }
    }

    /// The position `col` columns further along the same row.
    pub fn add_col(&self, col: usize) -> (p: Position)
        requires
            self.col + col <= usize::MAX,
            self.pos + col <= usize::MAX,
        ensures
            p.row == self.row,
            p.col == self.col + col,
            p.pos == self.pos + col,
    {
        Position { row: self.row, col: self.col + col, pos: self.pos + col }
    }
}

/// The half-open span `[beg, end)` between two positions.
#[derive(PartialEq, Eq, Structural, Clone, Copy, Debug)]
pub struct Location {
    pub beg: Position,
    pub end: Position,
}

impl Location {
    pub fn new(beg: Position, end: Position) -> (l: Location)
        ensures
            l == (Location { beg, end }),
    {
        Location { beg, end }
    }

    /// Builds a span from two `(row, col, pos)` triples.
    pub fn new2(beg: (usize, usize, usize), end: (usize, usize, usize)) -> (l: Location)
        ensures
            l.beg == (Position { row: beg.0, col: beg.1, pos: beg.2 }),
            l.end == (Position { row: end.0, col: end.1, pos: end.2 }),
    {
        Location { beg: Position::new2(beg), end: Position::new2(end) }
    }

    /// The empty span at one position.
    pub fn zero(row: usize, col: usize, pos: usize) -> (l: Location)
        ensures
            l.beg == (Position { row, col, pos }),
            l.end == l.beg,
    {
        let pos1 = Position { row, col, pos };
        Location::new(pos1, pos1)
    }
}

/// Number of line breaks among the first `n` scalar values of `text`.
pub open spec fn row_of(text: Seq<char>, n: int) -> int
    decreases n,
{
    if n <= 0 {
        0
    } else if text[n - 1] == '\n' {
        row_of(text, n - 1) + 1
    } else {
        row_of(text, n - 1)
    }
}

/// Number of scalar values between the last line break before offset `n` and
/// offset `n` itself.
pub open spec fn col_of(text: Seq<char>, n: int) -> int
    decreases n,
{
    if n <= 0 || text[n - 1] == '\n' {
        0
    } else {
        col_of(text, n - 1) + 1
    }
}

/// The position of offset `n` in `text`.
pub open spec fn position_at(text: Seq<char>, n: int) -> Position {
    Position { row: row_of(text, n) as usize, col: col_of(text, n) as usize, pos: n as usize }
}

/// The span between offsets `beg` and `end` of `text`.
pub open spec fn span_at(text: Seq<char>, beg: int, end: int) -> Location {
    Location { beg: position_at(text, beg), end: position_at(text, end) }
}

/// Row and column never exceed the offset they are derived from.
pub proof fn lemma_row_col_bounds(text: Seq<char>, n: int)
    requires
        0 <= n,
    ensures
        0 <= row_of(text, n) <= n,
        0 <= col_of(text, n) <= n,
        row_of(text, n) + col_of(text, n) <= n,
    decreases n,
{
    if n > 0 {
        lemma_row_col_bounds(text, n - 1);
    }
}

} // verus!
