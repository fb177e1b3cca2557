//! The parser state that grammar code drives, and the markers it hands out.

use vstd::prelude::*;
use drop_bomb::DropBomb;
use crate::bomb::{armed_bomb, bomb_defused, bomb_is_defused, defuse_bomb};
use crate::event::{log_of, Event, EventView};
use crate::input::{kind_at, Input, Token};
use crate::layout::{Layout, LayoutKind};
use crate::position::Position;
use crate::syntax::SyntaxKind;

verus! {

/// The state of a parser as contracts see it.
pub struct ParserView {
    /// The tokens of the input, which never change.
    pub tokens: Seq<Token>,
    /// How many tokens have been consumed.
    pub cursor: nat,
    /// The open layout contexts, innermost last.
    pub layouts: Seq<Layout>,
    /// The events recorded so far.
    pub log: Seq<EventView>,
}

impl ParserView {
    /// The state of a parser that has just been made for `tokens`: nothing
    /// consumed, nothing recorded, and the root context alone on the stack.
    pub open spec fn initial(tokens: Seq<Token>) -> ParserView {
        ParserView {
            tokens,
            cursor: 0,
            layouts: seq![Layout::root()],
            log: Seq::empty(),
        }
    }

    /// The cursor never runs past the end of the input.
    pub open spec fn wf(self) -> bool {
        self.cursor <= self.tokens.len()
    }

    /// Whether every token has been consumed.
    pub open spec fn at_end(self) -> bool {
        self.cursor == self.tokens.len()
    }

    /// The kind of the token `offset` places ahead of the cursor, or the
    /// end-of-input sentinel past the last token.
    pub open spec fn lookahead(self, offset: nat) -> SyntaxKind {
        kind_at(self.tokens, (self.cursor + offset) as int)
    }

    /// The position of the token under the cursor.
    pub open spec fn current_position(self) -> Position
        recommends
            !self.at_end(),
    {
        self.tokens[self.cursor as int].position
    }

    /// The innermost open layout context.
    pub open spec fn top(self) -> Layout
        recommends
            self.layouts.len() > 0,
    {
        self.layouts.last()
    }

    /// Whether the offside rule may be polled: either the input is used up,
    /// or the innermost context is not the root and the current token does
    /// not lie on a line before its anchor.
    pub open spec fn can_poll(self) -> bool {
        self.at_end() || (self.layouts.len() > 0 && self.top().admits(self.current_position()))
    }

    /// Whether the innermost block is over: at the end of the input, or when
    /// the current token lies outside the block.
    pub open spec fn layout_done(self) -> bool {
        self.at_end() || self.top().closes_layout(self.current_position())
    }

    /// Whether the current item of the innermost block is over: at the end of
    /// the input, or when the current token starts the next item.
    pub open spec fn group_done(self) -> bool {
        self.at_end() || self.top().closes_group(self.current_position())
    }

    /// The state after `consume`.
    pub open spec fn consumed(self) -> ParserView {
        ParserView {
            cursor: self.cursor + 1,
            log: self.log.push(EventView::Token { kind: self.lookahead(0) }),
            ..self
        }
    }

    /// The state after `eat(kind)`: consumed if the current token is of that
    /// kind, unchanged if not.
    pub open spec fn eaten(self, kind: SyntaxKind) -> ParserView {
        if self.lookahead(0) == kind {
            self.consumed()
        } else {
            self
        }
    }

    /// The state after `layout_start(kind)`: a context of that kind, anchored
    /// at the current token, on top of the stack.
    pub open spec fn layout_started(self, kind: LayoutKind) -> ParserView {
        ParserView {
            layouts: self.layouts.push(Layout { kind, position: self.current_position() }),
            ..self
        }
    }

    /// The state after `layout_end`: the innermost context gone, if there was
    /// one.
    pub open spec fn layout_ended(self) -> ParserView {
        ParserView {
            layouts: if self.layouts.len() > 0 {
                self.layouts.drop_last()
            } else {
                self.layouts
            },
            ..self
        }
    }

    /// The state after `start`: a placeholder at the end of the log.
    pub open spec fn started(self) -> ParserView {
        ParserView { log: self.log.push(EventView::placeholder()), ..self }
    }

    /// The state after a marker bound to `index` has ended with `kind`: the
    /// entry at `index` opens a node of that kind, and a `Finish` closes the
    /// log.
    pub open spec fn ended(self, index: int, kind: SyntaxKind) -> ParserView {
        ParserView {
            log: self.log.update(index, EventView::Start { kind }).push(EventView::Finish),
            ..self
        }
    }

    /// The state after a marker bound to `index` has been cancelled: the last
    /// entry is gone if it is the marker's own, and nothing changes if not.
    pub open spec fn cancelled(self, index: int) -> ParserView {
        ParserView {
            log: if index + 1 == self.log.len() {
                self.log.drop_last()
            } else {
                self.log
            },
            ..self
        }
    }

    /// The state after `error(message)`: the error at the end of the log.
    pub open spec fn errored(self, message: Seq<char>) -> ParserView {
        ParserView { log: self.log.push(EventView::Error { message }), ..self }
    }

    /// The offside rule of an `Instance` block: with a token left, the block
    /// and its current item are over exactly when the token's column is at
    /// most the anchor's, the anchor's own column included.
    pub proof fn lemma_instance_rule(self)
        requires
            !self.at_end(),
            self.layouts.len() > 0,
            self.top().kind == LayoutKind::Instance,
        ensures
            self.layout_done() <==> self.current_position().column <= self.top().position.column,
            self.group_done() <==> self.current_position().column <= self.top().position.column,
    {
    }

    /// The offside rule of a `Module` block: with a token left, the current
    /// item is over exactly when the token stands in the anchor's column, so
    /// a deeper column never ends it; the block itself is never over.
    pub proof fn lemma_module_rule(self)
        requires
            !self.at_end(),
            self.layouts.len() > 0,
            self.top().kind == LayoutKind::Module,
        ensures
            self.group_done() <==> self.current_position().column == self.top().position.column,
            self.current_position().column > self.top().position.column ==> !self.group_done(),
            !self.layout_done(),
    {
    }

    /// A `Parenthesis` context is closed by the grammar alone: with a token
    /// left, neither the block nor its current item is ever over.
    pub proof fn lemma_parenthesis_rule(self)
        requires
            !self.at_end(),
            self.layouts.len() > 0,
            self.top().kind == LayoutKind::Parenthesis,
        ensures
            !self.layout_done(),
            !self.group_done(),
    {
    }

    /// At the end of the input every block and every item is over, whatever
    /// is on the stack.
    pub proof fn lemma_end_of_input_rule(self)
        requires
            self.at_end(),
        ensures
            self.can_poll(),
            self.layout_done(),
            self.group_done(),
    {
    }

    /// Opening a node and ending it with `kind`, with `children` recorded in
    /// between, adds one node to the log: a `Start` of that kind, the
    /// children, and a `Finish`. Nothing else changes.
    pub proof fn lemma_start_then_end(self, children: Seq<EventView>, kind: SyntaxKind)
        ensures
            (ParserView { log: self.started().log + children, ..self }).ended(
                self.log.len() as int,
                kind,
            ) == (ParserView {
                log: self.log + seq![EventView::Start { kind }] + children + seq![
                    EventView::Finish,
                ],
                ..self
            }),
            self.started().ended(self.log.len() as int, kind) == (ParserView {
                log: self.log + seq![EventView::Start { kind }, EventView::Finish],
                ..self
            }),
    {
        let index = self.log.len() as int;
        let grown = ParserView { log: self.started().log + children, ..self };
        assert(grown.ended(index, kind).log =~= self.log + seq![EventView::Start { kind }]
            + children + seq![EventView::Finish]);
        assert(self.started().ended(index, kind).log =~= self.log + seq![
            EventView::Start { kind },
            EventView::Finish,
        ]);
    }

    /// Opening a node and cancelling it at once leaves the state as it was.
    pub proof fn lemma_start_then_cancel(self)
        ensures
            self.started().cancelled(self.log.len() as int) == self,
    {
        assert(self.started().cancelled(self.log.len() as int).log =~= self.log);
    }
}

/// A parser over one token stream.
pub struct Parser {
    input: Input,
    index: usize,
    layouts: Vec<Layout>,
    events: Vec<Event>,
}

impl View for Parser {
    type V = ParserView;

    closed spec fn view(&self) -> ParserView {
        ParserView {
            tokens: self.input@,
            cursor: self.index as nat,
            layouts: self.layouts@,
            log: log_of(self.events@),
        }
    }
}

impl Parser {
    /// Makes a parser at the start of `input`.
    pub fn new(input: Input) -> (parser: Parser)
        ensures
            parser@ == ParserView::initial(input@),
    {
        let index: usize = 0;
        let mut layouts: Vec<Layout> = Vec::new();
        layouts.push(Layout::new(LayoutKind::Root, Position::start()));
        let events: Vec<Event> = Vec::new();
        let parser = Parser { input, index, layouts, events };
        assert(parser@.layouts =~= ParserView::initial(input@).layouts);
        assert(parser@.log =~= ParserView::initial(input@).log);
        parser
    }

    /// The number of tokens consumed so far.
    pub fn index(&self) -> (index: usize)
        ensures
            index == self@.cursor,
    {
        self.index
    }

    /// The open layout contexts, innermost last.
    pub fn layouts(&self) -> (layouts: &Vec<Layout>)
        ensures
            layouts@ == self@.layouts,
    {
        &self.layouts
    }

    /// The events recorded so far.
    pub fn events(&self) -> (events: &Vec<Event>)
        ensures
            log_of(events@) == self@.log,
    {
        &self.events
    }

    /// Ends the parse and hands the event log over.
    pub fn finish(self) -> (events: Vec<Event>)
        ensures
            log_of(events@) == self@.log,
    {
        self.events
    }

    /// Whether every token has been consumed.
    pub fn is_eof(&self) -> (eof: bool)
        ensures
            eof == self@.at_end(),
    {
        self.index == self.input.len()
    }

    /// Opens a layout context of the given kind, anchored at the current
    /// token.
    pub fn layout_start(&mut self, kind: LayoutKind)
        requires
            old(self)@.wf(),
            !old(self)@.at_end(),
        ensures
            final(self)@ == old(self)@.layout_started(kind),
    {
        let position = self.input.position(self.index);
        self.layouts.push(Layout::new(kind, position));
    }

    /// Closes the innermost layout context, whatever it is.
    pub fn layout_end(&mut self)
        ensures
            final(self)@ == old(self)@.layout_ended(),
    {
        self.layouts.pop();
        assert(self@.layouts =~= old(self)@.layout_ended().layouts);
    }

    /// Whether the offside rule may be polled as things stand: see
    /// [`ParserView::can_poll`].
    pub fn can_poll(&self) -> (allowed: bool)
        requires
            self@.wf(),
        ensures
            allowed == self@.can_poll(),
    {
        if self.is_eof() {
            return true;
        }
        if self.layouts.len() == 0 {
            return false;
        }
        let position = self.input.position(self.index);
        let layout = &self.layouts[self.layouts.len() - 1];
        layout.kind != LayoutKind::Root && position.line >= layout.position.line
    }

    /// Determines whether the current token lies outside the innermost
    /// layout context.
    pub fn layout_done(&self) -> (done: bool)
        requires
            self@.wf(),
            self@.can_poll(),
        ensures
            done == self@.layout_done(),
    {
        if self.is_eof() {
            return true;
        }
        let position = self.input.position(self.index);
        let layout = &self.layouts[self.layouts.len() - 1];
        layout.layout_done_at(position)
    }

    /// Determines whether the current token starts the next item of the
    /// innermost layout context.
    pub fn group_done(&self) -> (done: bool)
        requires
            self@.wf(),
            self@.can_poll(),
        ensures
            done == self@.group_done(),
    {
        if self.is_eof() {
            return true;
        }
        let position = self.input.position(self.index);
        let layout = &self.layouts[self.layouts.len() - 1];
        layout.group_done_at(position)
    }

    /// Opens a node whose kind is not known yet: records a placeholder and
    /// returns an armed marker bound to it.
    pub fn start(&mut self) -> (marker: NodeMarker)
        ensures
            final(self)@ == old(self)@.started(),
            marker@ == (MarkerView { index: old(self)@.log.len(), armed: true }),
    {
        let index = self.events.len();
        self.events.push(Event::Start { kind: SyntaxKind::Sentinel });
        assert(self@.log =~= old(self)@.started().log);
        NodeMarker::new(index)
    }

    /// Records a parse error that the grammar reports. The cursor, the
    /// layout stack and every open marker stay as they are.
    pub fn error(&mut self, message: String)
        ensures
            final(self)@ == old(self)@.errored(message@),
    {
        self.events.push(Event::Error { message });
        assert(self@.log =~= old(self)@.errored(message@).log);
    }

    /// Returns the kind of the token `offset` places ahead, or
    /// [`SyntaxKind::EndOfFile`] past the last token.
    pub fn nth(&self, offset: usize) -> (kind: SyntaxKind)
        ensures
            kind == self@.lookahead(offset as nat),
    {
        proof {
            self.input.lemma_len_fits();
        }
        match self.index.checked_add(offset) {
            Some(index) => self.input.kind(index),
            None => SyntaxKind::EndOfFile,
        }
    }

    /// Determines whether the token `offset` places ahead is of the given
    /// kind.
    pub fn nth_at(&self, offset: usize, kind: SyntaxKind) -> (matches: bool)
        ensures
            matches == (self@.lookahead(offset as nat) == kind),
    {
        self.nth(offset) == kind
    }

    /// Returns the kind of the current token, or [`SyntaxKind::EndOfFile`]
    /// when the input is used up.
    pub fn current(&self) -> (kind: SyntaxKind)
        ensures
            kind == self@.lookahead(0),
    {
        self.nth(0)
    }

    /// Determines whether the current token is of the given kind.
    pub fn at(&self, kind: SyntaxKind) -> (matches: bool)
        ensures
            matches == (self@.lookahead(0) == kind),
    {
        self.nth_at(0, kind)
    }

    /// Consumes the current token: records it in the log and moves the cursor
    /// one token on.
    pub fn consume(&mut self)
        requires
            old(self)@.wf(),
            !old(self)@.at_end(),
        ensures
            final(self)@ == old(self)@.consumed(),
    {
        proof {
            self.input.lemma_len_fits();
        }
        let kind = self.nth(0);
        self.index += 1;
        self.events.push(Event::Token { kind });
        assert(self@.log =~= old(self)@.consumed().log);
    }

    /// Consumes the current token if it is of the given kind, and says
    /// whether it did.
    pub fn eat(&mut self, kind: SyntaxKind) -> (eaten: bool)
        requires
            old(self)@.wf(),
            old(self)@.lookahead(0) == kind ==> !old(self)@.at_end(),
        ensures
            eaten == (old(self)@.lookahead(0) == kind),
            final(self)@ == old(self)@.eaten(kind),
    {
        if !self.at(kind) {
            return false;
        }
        self.consume();
        true
    }
}

/// A one-shot handle to a node that has been opened and not yet classified.
///
/// A marker is armed from the moment it is made until `end` or `cancel`
/// disarms it. Dropping an armed marker panics.
pub struct NodeMarker {
    index: usize,
    bomb: DropBomb,
}

/// A marker as contracts see it.
pub struct MarkerView {
    /// The place in the event log that the marker is bound to.
    pub index: nat,
    /// Whether the marker has still to be ended or cancelled.
    pub armed: bool,
}

impl View for NodeMarker {
    type V = MarkerView;

    closed spec fn view(&self) -> MarkerView {
        MarkerView { index: self.index as nat, armed: !bomb_defused(self.bomb) }
    }
}

impl NodeMarker {
    /// Makes an armed marker bound to `index`.
    pub fn new(index: usize) -> (marker: NodeMarker)
        ensures
            marker@ == (MarkerView { index: index as nat, armed: true }),
    {
        let bomb = armed_bomb();
        NodeMarker { index, bomb }
    }

    /// Whether the marker has still to be ended or cancelled.
    pub fn is_armed(&self) -> (armed: bool)
        ensures
            armed == self@.armed,
    {
        !bomb_is_defused(&self.bomb)
    }

    /// The place in the event log that the marker is bound to.
    pub fn index(&self) -> (index: usize)
        ensures
            index == self@.index,
    {
        self.index
    }

    /// Whether `end` may be called with `parser`: the marker is bound to a
    /// `Start` of its log.
    pub fn can_end(&self, parser: &Parser) -> (allowed: bool)
        ensures
            allowed == (self@.index < parser@.log.len() && parser@.log[self@.index as int]
                is Start),
    {
        if self.index >= parser.events.len() {
            return false;
        }
        match &parser.events[self.index] {
            Event::Start { .. } => true,
            _ => false,
        }
    }

    /// Whether `cancel` may be called with `parser`: if the marker is bound
    /// to the last entry of its log, that entry is a placeholder.
    pub fn can_cancel(&self, parser: &Parser) -> (allowed: bool)
        ensures
            allowed == (self@.index + 1 == parser@.log.len() ==> parser@.log.last()
                == EventView::placeholder()),
    {
        let len = parser.events.len();
        if len == 0 || self.index != len - 1 {
            return true;
        }
        match &parser.events[self.index] {
            Event::Start { kind } => *kind == SyntaxKind::Sentinel,
            _ => false,
        }
    }

    /// Commits the node to `kind` and closes it: disarms the marker, rewrites
    /// the placeholder in place and appends a `Finish`.
    pub fn end(&mut self, parser: &mut Parser, kind: SyntaxKind)
        requires
            old(self)@.index < old(parser)@.log.len(),
            old(parser)@.log[old(self)@.index as int] is Start,
        ensures
            final(self)@ == (MarkerView { armed: false, ..old(self)@ }),
            final(parser)@ == old(parser)@.ended(old(self)@.index as int, kind),
    {
        defuse_bomb(&mut self.bomb);
        match &mut parser.events[self.index] {
            Event::Start { kind: sentinel } => {
                *sentinel = kind;
            },
            _ => {},
        }
        parser.events.push(Event::Finish);
        assert(parser@.log =~= old(parser)@.ended(old(self)@.index as int, kind).log);
    }

    /// Retracts the node: disarms the marker, and removes the placeholder if
    /// nothing has been recorded since the node was opened. A placeholder
    /// that already has events behind it stays where it is.
    pub fn cancel(&mut self, parser: &mut Parser)
        requires
            old(self)@.index + 1 == old(parser)@.log.len() ==> old(parser)@.log.last()
                == EventView::placeholder(),
        ensures
            final(self)@ == (MarkerView { armed: false, ..old(self)@ }),
            final(parser)@ == old(parser)@.cancelled(old(self)@.index as int),
    {
        defuse_bomb(&mut self.bomb);
        let len = parser.events.len();
        if len > 0 && self.index == len - 1 {
            parser.events.pop();
        }
        assert(parser@.log =~= old(parser)@.cancelled(old(self)@.index as int).log);
    }
}

} // verus!
