//! Source positions of tokens.

use vstd::prelude::*;

verus! {

/// Where a token starts: byte offset, line and column. Lines and columns
/// count from one.
#[derive(Clone, Copy, Debug, PartialEq, Eq, PartialOrd, Ord, Hash, Structural)]
pub struct Position {
    pub offset: usize,
    pub line: usize,
    pub column: usize,
}

impl Position {
    /// A position is well formed when its line and column are at least one.
    pub open spec fn wf(self) -> bool {
        self.line >= 1 && self.column >= 1
    }

    /// The position of the first byte of any input.
    pub open spec fn origin() -> Position {
        Position { offset: 0, line: 1, column: 1 }
    }

    /// Returns the position of the first byte of any input.
    pub fn start() -> (position: Position)
        ensures
            position == Position::origin(),
            position.wf(),
    {
        Position { offset: 0, line: 1, column: 1 }
    }
}

} // verus!
