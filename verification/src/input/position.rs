use crate::error::{concat, decimal, usize_text};
use vstd::prelude::*;

verus! {

/// A position in the input source: a line and a column, both starting at 1.
#[derive(Clone, Copy, Debug, PartialEq, Eq, Structural)]
pub struct Position {
    pub line: usize,
    pub column: usize,
}

impl Position {
    /// Creates a new `Position` with the given `line` and `column`.
    pub fn new(line: usize, column: usize) -> (p: Position)
        ensures
            p.line == line,
            p.column == column,
    {
        Position { line, column }
    }

    /// Advances the column number by one.
    pub fn advance_column(&mut self)
        requires
            old(self).column < usize::MAX,
        ensures
            final(self).line == old(self).line,
            final(self).column == old(self).column + 1,
    {
        self.column = self.column + 1;
    }

    /// The text of this position: `line:column`.
    pub fn text(&self) -> (s: String)
        ensures
            s@ == position_text(*self),
    {
        let s = concat(usize_text(self.line), ":");
        concat(s, usize_text(self.column).as_str())
    }
}

/// The text of a position: its line and column in decimal, separated by a colon.
pub open spec fn position_text(p: Position) -> Seq<char> {
    decimal(p.line as nat) + ":"@ + decimal(p.column as nat)
}

} // verus!
