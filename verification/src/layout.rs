//! Layout contexts and the offside rule.
//!
//! A layout context remembers what kind of block is open and the position of
//! the token that opened it. Whether a later token still belongs to the block,
//! or to the item it is part of, is decided from the token's column alone.

use vstd::prelude::*;
use crate::position::Position;

verus! {

/// The kinds of layout context.
#[derive(Clone, Copy, Debug, PartialEq, Eq, Hash, Structural)]
pub enum LayoutKind {
    /// The implicit outermost context. It is never polled and never closed.
    Root,
    /// A `where` block: its members align to one column, and it closes only
    /// at the end of the input.
    Module,
    /// A block that ends at the first token indented no deeper than its
    /// anchor.
    Instance,
    /// An explicitly delimited context: columns are irrelevant, the grammar
    /// closes it when it sees the closing delimiter.
    Parenthesis,
}

/// A layout context: its kind and its anchor, the position of the token that
/// was current when the context was opened.
#[derive(Clone, Copy, Debug, PartialEq, Eq, Hash, Structural)]
pub struct Layout {
    pub kind: LayoutKind,
    pub position: Position,
}

impl Layout {
    /// The context at the bottom of every layout stack.
    pub open spec fn root() -> Layout {
        Layout { kind: LayoutKind::Root, position: Position::origin() }
    }

    /// Whether a token at `current` may be judged against this context: the
    /// context is not the root, and the token does not lie on a line before
    /// the anchor.
    pub open spec fn admits(self, current: Position) -> bool {
        self.kind != LayoutKind::Root && current.line >= self.position.line
    }

    /// The offside rule for blocks: does a token at `current` lie outside the
    /// block that this context opened?
    pub open spec fn closes_layout(self, current: Position) -> bool {
        match self.kind {
            LayoutKind::Instance => current.column <= self.position.column,
            _ => false,
        }
    }

    /// The offside rule for items: does a token at `current` start the next
    /// item of the block that this context opened?
    pub open spec fn closes_group(self, current: Position) -> bool {
        match self.kind {
            LayoutKind::Module => current.column == self.position.column,
            LayoutKind::Instance => current.column <= self.position.column,
            _ => false,
        }
    }

    /// Makes a context of the given kind anchored at `position`.
    pub fn new(kind: LayoutKind, position: Position) -> (layout: Layout)
        ensures
            layout == (Layout { kind, position }),
    {
        Layout { kind, position }
    }

    /// Decides whether a token at `current` ends the block.
    pub fn layout_done_at(&self, current: Position) -> (done: bool)
        requires
            self.admits(current),
        ensures
            done == self.closes_layout(current),
    {
        match self.kind {
            LayoutKind::Instance => current.column <= self.position.column,
            _ => false,
        }
    }

    /// Decides whether a token at `current` ends the current item of the
    /// block.
    pub fn group_done_at(&self, current: Position) -> (done: bool)
        requires
            self.admits(current),
        ensures
            done == self.closes_group(current),
    {
        match self.kind {
            LayoutKind::Module => current.column == self.position.column,
            LayoutKind::Instance => current.column <= self.position.column,
            _ => false,
        }
    }
}

} // verus!
