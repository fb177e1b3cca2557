//! The token source that a parser reads.

use vstd::prelude::*;
use crate::position::Position;
use crate::syntax::SyntaxKind;

verus! {

/// A classified, positioned token.
#[derive(Clone, Copy, Debug, PartialEq, Eq, Hash, Structural)]
pub struct Token {
    pub kind: SyntaxKind,
    pub position: Position,
}

/// The kind of the token at `index` in `tokens`, or the end-of-input
/// sentinel when `index` lies past the last token.
pub open spec fn kind_at(tokens: Seq<Token>, index: int) -> SyntaxKind {
    if 0 <= index < tokens.len() {
        tokens[index].kind
    } else {
        SyntaxKind::EndOfFile
    }
}

/// A read-only, random-access sequence of tokens.
pub struct Input {
    tokens: Vec<Token>,
}

impl View for Input {
    type V = Seq<Token>;

    closed spec fn view(&self) -> Seq<Token> {
        self.tokens@
    }
}

impl Input {
    /// Wraps the tokens that a tokenizer produced, in source order.
    pub fn new(tokens: Vec<Token>) -> (input: Input)
        ensures
            input@ == tokens@,
    {
        Input { tokens }
    }

    /// A token source never holds more tokens than an index can address.
    pub proof fn lemma_len_fits(&self)
        ensures
            self@.len() <= usize::MAX,
    {
        assert(self.tokens.len() == self.tokens@.len());
    }

    /// The number of tokens.
    pub fn len(&self) -> (len: usize)
        ensures
            len == self@.len(),
    {
        self.tokens.len()
    }

    /// Whether the source holds no token at all.
    pub fn is_empty(&self) -> (empty: bool)
        ensures
            empty == (self@.len() == 0),
    {
        self.tokens.len() == 0
    }

    /// The position of the token at `index`.
    pub fn position(&self, index: usize) -> (position: Position)
        requires
            index < self@.len(),
        ensures
            position == self@[index as int].position,
    {
        self.tokens[index].position
    }

    /// The kind of the token at `index`, or [`SyntaxKind::EndOfFile`] for any
    /// index past the last token.
    pub fn kind(&self, index: usize) -> (kind: SyntaxKind)
        ensures
            kind == kind_at(self@, index as int),
    {
        if index < self.tokens.len() {
            self.tokens[index].kind
        } else {
            SyntaxKind::EndOfFile
        }
    }
}

} // verus!
