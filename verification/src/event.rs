//! Tree-construction events.
//!
//! A syntax tree is recorded as a flat log: `Start` opens a node, `Finish`
//! closes the innermost open node, and `Token` and `Error` are leaves of the
//! node that is open where they stand.

use vstd::prelude::*;
use crate::syntax::SyntaxKind;

verus! {

/// One entry of the event log.
#[derive(Debug, PartialEq, Eq)]
pub enum Event {
    /// Opens a node. The kind is [`SyntaxKind::Sentinel`] until the grammar
    /// commits the node.
    Start { kind: SyntaxKind },
    /// A consumed token.
    Token { kind: SyntaxKind },
    /// A parse error reported by the grammar.
    Error { message: String },
    /// Closes the innermost open node.
    Finish,
}

/// What an [`Event`] is in contracts: the same variants, with the message of
/// an error as a sequence of characters.
pub enum EventView {
    Start { kind: SyntaxKind },
    Token { kind: SyntaxKind },
    Error { message: Seq<char> },
    Finish,
}

impl View for Event {
    type V = EventView;

    open spec fn view(&self) -> EventView {
        match self {
            Event::Start { kind } => EventView::Start { kind: *kind },
            Event::Token { kind } => EventView::Token { kind: *kind },
            Event::Error { message } => EventView::Error { message: message@ },
            Event::Finish => EventView::Finish,
        }
    }
}

impl EventView {
    /// The entry that a freshly opened node leaves in the log.
    pub open spec fn placeholder() -> EventView {
        EventView::Start { kind: SyntaxKind::Sentinel }
    }

    /// Whether the event is a leaf of the tree: a token or an error.
    pub open spec fn is_leaf(self) -> bool {
        self is Token || self is Error
    }
}

/// The views of the events of a log, in order.
pub open spec fn log_of(events: Seq<Event>) -> Seq<EventView> {
    events.map_values(|event: Event| event@)
}

} // verus!
