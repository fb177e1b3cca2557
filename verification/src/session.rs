//! Whole parses, as sequences of operations.
//!
//! A [`Step`] names one call of the grammar-facing interface, and a
//! [`Session`] is the state that a sequence of steps leads to: the parser's
//! own state, and the markers that have been handed out and are still armed.
//! Each step moves the parser's state exactly as the contract of the function
//! it names says, so what is proved here of every sequence of steps holds of
//! every sequence of calls.

use vstd::prelude::*;
use crate::event::EventView;
use crate::input::Token;
use crate::layout::{Layout, LayoutKind};
use crate::nesting::{
    depth, lemma_commit, lemma_drop_last, lemma_pending_counts, lemma_push, pending, well_formed,
};
use crate::parser::ParserView;
use crate::syntax::SyntaxKind;

verus! {

/// One call of the grammar-facing interface. A marker is named by the place
/// in the log that it is bound to.
pub enum Step {
    Consume,
    Eat { kind: SyntaxKind },
    LayoutStart { layout: LayoutKind },
    LayoutEnd,
    Start,
    End { marker: int, kind: SyntaxKind },
    Cancel { marker: int },
    Error { message: Seq<char> },
}

/// A parser's state together with the markers that are armed.
pub struct Session {
    pub parser: ParserView,
    pub armed: Set<int>,
}

impl Session {
    /// The session of a parser that has just been made for `tokens`.
    pub open spec fn initial(tokens: Seq<Token>) -> Session {
        Session { parser: ParserView::initial(tokens), armed: Set::empty() }
    }

    /// Whether some marker is armed.
    pub open spec fn has_open_node(self) -> bool {
        exists|marker: int| self.armed.contains(marker)
    }

    /// Whether `step` may be taken: no token is consumed and no layout
    /// context opened at the end of the input, and a marker is ended or
    /// cancelled only while it is armed.
    pub open spec fn permits(self, step: Step) -> bool {
        match step {
            Step::Consume => !self.parser.at_end(),
            Step::Eat { kind } => self.parser.lookahead(0) == kind ==> !self.parser.at_end(),
            Step::LayoutStart { .. } => !self.parser.at_end(),
            Step::End { marker, .. } => self.armed.contains(marker),
            Step::Cancel { marker } => self.armed.contains(marker),
            _ => true,
        }
    }

    /// Whether every armed marker is bound to a placeholder of the log.
    pub open spec fn markers_bound(self) -> bool {
        forall|marker: int|
            self.armed.contains(marker) ==> 0 <= marker < self.parser.log.len()
                && self.parser.log[marker] == EventView::placeholder()
    }

    /// Whether `step` keeps the log on its way to a forest: a token or an
    /// error is recorded only inside an open node, a node is committed to a
    /// kind other than the placeholder, and a node is cancelled only while
    /// nothing has been recorded behind its placeholder.
    pub open spec fn keeps_nesting(self, step: Step) -> bool {
        match step {
            Step::Consume => self.has_open_node(),
            Step::Eat { kind } => self.parser.lookahead(0) == kind ==> self.has_open_node(),
            Step::Error { .. } => self.has_open_node(),
            Step::End { kind, .. } => kind != SyntaxKind::Sentinel,
            Step::Cancel { marker } => marker + 1 == self.parser.log.len(),
            _ => true,
        }
    }

    /// The session after `step`.
    pub open spec fn apply(self, step: Step) -> Session {
        match step {
            Step::Consume => Session { parser: self.parser.consumed(), ..self },
            Step::Eat { kind } => Session { parser: self.parser.eaten(kind), ..self },
            Step::LayoutStart { layout } => Session {
                parser: self.parser.layout_started(layout),
                ..self
            },
            Step::LayoutEnd => Session { parser: self.parser.layout_ended(), ..self },
            Step::Start => Session {
                parser: self.parser.started(),
                armed: self.armed.insert(self.parser.log.len() as int),
            },
            Step::End { marker, kind } => Session {
                parser: self.parser.ended(marker, kind),
                armed: self.armed.remove(marker),
            },
            Step::Cancel { marker } => Session {
                parser: self.parser.cancelled(marker),
                armed: self.armed.remove(marker),
            },
            Step::Error { message } => Session { parser: self.parser.errored(message), ..self },
        }
    }

    /// The session that `steps` lead to from a fresh parser for `tokens`.
    pub open spec fn run(tokens: Seq<Token>, steps: Seq<Step>) -> Session
        decreases steps.len(),
    {
        if steps.len() == 0 {
            Session::initial(tokens)
        } else {
            Session::run(tokens, steps.drop_last()).apply(steps.last())
        }
    }

    /// Whether every one of `steps` may be taken where it stands.
    pub open spec fn permitted(tokens: Seq<Token>, steps: Seq<Step>) -> bool
        decreases steps.len(),
    {
        steps.len() == 0 || (Session::permitted(tokens, steps.drop_last()) && Session::run(
            tokens,
            steps.drop_last(),
        ).permits(steps.last()))
    }

    /// Whether every one of `steps` keeps the log on its way to a forest.
    pub open spec fn nested(tokens: Seq<Token>, steps: Seq<Step>) -> bool
        decreases steps.len(),
    {
        steps.len() == 0 || (Session::nested(tokens, steps.drop_last()) && Session::run(
            tokens,
            steps.drop_last(),
        ).keeps_nesting(steps.last()))
    }

    /// Whether `step` moves the cursor: a `consume`, or an `eat` of the kind
    /// that the current token has.
    pub open spec fn advances(self, step: Step) -> bool {
        match step {
            Step::Consume => true,
            Step::Eat { kind } => self.parser.lookahead(0) == kind,
            _ => false,
        }
    }

    /// Whether the layout stack is as it is meant to be: not empty, with the
    /// root context at the bottom.
    pub open spec fn rooted(self) -> bool {
        self.parser.layouts.len() > 0 && self.parser.layouts[0] == Layout::root()
    }

    /// Whether every `layout_end` among `steps` closes a context other than
    /// the bottom one.
    pub open spec fn balanced(tokens: Seq<Token>, steps: Seq<Step>) -> bool
        decreases steps.len(),
    {
        steps.len() == 0 || (Session::balanced(tokens, steps.drop_last()) && (steps.last()
            is LayoutEnd ==> Session::run(tokens, steps.drop_last()).parser.layouts.len() > 1))
    }

    /// What holds of the log while nodes are still open.
    pub open spec fn nesting_holds(self) -> bool {
        unfinished(self.parser.log, self.armed)
    }
}

/// What holds of a log while the markers in `armed` have still to be ended
/// or cancelled: the armed markers are the placeholders, every placeholder
/// is an open node, the open nodes at the end are the placeholders alone,
/// and tokens and errors stand inside some node.
pub open spec fn unfinished(log: Seq<EventView>, armed: Set<int>) -> bool {
    &&& forall|marker: int|
        armed.contains(marker) <==> 0 <= marker < log.len() && log[marker]
            == EventView::placeholder()
    &&& forall|n: int| 0 <= n <= log.len() ==> #[trigger] depth(log, n) >= pending(log, n)
    &&& depth(log, log.len() as int) == pending(log, log.len() as int)
    &&& forall|i: int| 0 <= i < log.len() && (#[trigger] log[i]).is_leaf() ==> depth(log, i) > 0
}

/// Recording a token or an error inside an open node keeps a log
/// unfinished in good order.
proof fn lemma_record_leaf(a: Seq<EventView>, armed: Set<int>, event: EventView)
    requires
        unfinished(a, armed),
        event.is_leaf(),
        exists|marker: int| armed.contains(marker),
    ensures
        unfinished(a.push(event), armed),
{
    let b = a.push(event);
    let len = a.len() as int;
    lemma_push(a, event);
    let open = choose|marker: int| armed.contains(marker);
    assert(a[open] == EventView::placeholder());
    lemma_pending_counts(a, len);
    assert(pending(a, len) >= 1);
    assert forall|marker: int|
        armed.contains(marker) <==> 0 <= marker < b.len() && b[marker]
            == EventView::placeholder() by {
        if 0 <= marker < len {
            assert(b[marker] == a[marker]);
        }
    }
    assert forall|n: int| 0 <= n <= b.len() implies #[trigger] depth(b, n) >= pending(b, n) by {
        if n <= len {
            assert(depth(a, n) >= pending(a, n));
        }
    }
    assert forall|i: int| 0 <= i < b.len() && (#[trigger] b[i]).is_leaf() implies depth(b, i)
        > 0 by {
        if i < len {
            assert(a[i].is_leaf());
        }
        assert(depth(b, i) == depth(a, i));
    }
}

/// Opening a node keeps a log unfinished in good order, with the new
/// marker armed.
proof fn lemma_open_node(a: Seq<EventView>, armed: Set<int>)
    requires
        unfinished(a, armed),
    ensures
        unfinished(a.push(EventView::placeholder()), armed.insert(a.len() as int)),
{
    let event = EventView::placeholder();
    let b = a.push(event);
    let len = a.len() as int;
    let marked = armed.insert(len);
    lemma_push(a, event);
    assert forall|marker: int|
        marked.contains(marker) <==> 0 <= marker < b.len() && b[marker]
            == EventView::placeholder() by {
        if 0 <= marker < len {
            assert(b[marker] == a[marker]);
        }
    }
    assert forall|n: int| 0 <= n <= b.len() implies #[trigger] depth(b, n) >= pending(b, n) by {
        if n <= len {
            assert(depth(a, n) >= pending(a, n));
        }
    }
    assert forall|i: int| 0 <= i < b.len() && (#[trigger] b[i]).is_leaf() implies depth(b, i)
        > 0 by {
        assert(i < len);
        assert(a[i].is_leaf());
        assert(depth(b, i) == depth(a, i));
    }
}

/// Committing an armed marker's node to a real kind keeps a log unfinished
/// in good order, with that marker disarmed.
proof fn lemma_close_node(a: Seq<EventView>, armed: Set<int>, marker: int, kind: SyntaxKind)
    requires
        unfinished(a, armed),
        armed.contains(marker),
        kind != SyntaxKind::Sentinel,
    ensures
        unfinished(
            a.update(marker, EventView::Start { kind }).push(EventView::Finish),
            armed.remove(marker),
        ),
{
    let len = a.len() as int;
    let committed = a.update(marker, EventView::Start { kind });
    let b = committed.push(EventView::Finish);
    let left = armed.remove(marker);
    assert(a[marker] == EventView::placeholder());
    assert forall|n: int| 0 <= n <= len implies depth(committed, n) == depth(a, n) && pending(
        committed,
        n,
    ) == pending(a, n) - if n > marker {
        1int
    } else {
        0int
    } by {
        lemma_commit(a, marker, kind, n);
    }
    lemma_push(committed, EventView::Finish);
    assert forall|other: int|
        left.contains(other) <==> 0 <= other < b.len() && b[other]
            == EventView::placeholder() by {
        if 0 <= other < len && other != marker {
            assert(b[other] == a[other]);
        }
    }
    assert forall|n: int| 0 <= n <= b.len() implies #[trigger] depth(b, n) >= pending(b, n) by {
        if n <= len {
            assert(depth(b, n) == depth(committed, n));
            assert(pending(b, n) == pending(committed, n));
            assert(depth(a, n) >= pending(a, n));
        }
    }
    assert forall|i: int| 0 <= i < b.len() && (#[trigger] b[i]).is_leaf() implies depth(b, i)
        > 0 by {
        assert(i < len);
        assert(b[i] == a[i]);
        assert(a[i].is_leaf());
        assert(depth(b, i) == depth(committed, i));
    }
}

/// Cancelling an armed marker whose placeholder is the last entry keeps a
/// log unfinished in good order, with that marker disarmed.
proof fn lemma_retract_node(a: Seq<EventView>, armed: Set<int>, marker: int)
    requires
        unfinished(a, armed),
        armed.contains(marker),
        marker + 1 == a.len(),
    ensures
        unfinished(a.drop_last(), armed.remove(marker)),
{
    let len = a.len() as int;
    let b = a.drop_last();
    let left = armed.remove(marker);
    lemma_drop_last(a);
    assert(a[marker] == EventView::placeholder());
    assert(depth(a, len) == depth(a, len - 1) + 1);
    assert(pending(a, len) == pending(a, len - 1) + 1);
    assert forall|other: int|
        left.contains(other) <==> 0 <= other < b.len() && b[other]
            == EventView::placeholder() by {
        if 0 <= other < len - 1 {
            assert(b[other] == a[other]);
        }
    }
    assert forall|n: int| 0 <= n <= b.len() implies #[trigger] depth(b, n) >= pending(b, n) by {
        assert(depth(b, n) == depth(a, n));
        assert(pending(b, n) == pending(a, n));
        assert(depth(a, n) >= pending(a, n));
    }
    assert forall|i: int| 0 <= i < b.len() && (#[trigger] b[i]).is_leaf() implies depth(b, i)
        > 0 by {
        assert(b[i] == a[i]);
        assert(a[i].is_leaf());
        assert(depth(b, i) == depth(a, i));
    }
}

/// Along any sequence of steps that may be taken, every armed marker stays
/// bound to a placeholder of the log. So a marker that `start` has handed out
/// can be ended, or cancelled, for as long as it is armed: what `end` and
/// `cancel` require of the log holds.
pub proof fn lemma_markers_stay_bound(tokens: Seq<Token>, steps: Seq<Step>)
    requires
        Session::permitted(tokens, steps),
    ensures
        Session::run(tokens, steps).markers_bound(),
    decreases steps.len(),
{
    if steps.len() > 0 {
        let before = Session::run(tokens, steps.drop_last());
        let after = Session::run(tokens, steps);
        lemma_markers_stay_bound(tokens, steps.drop_last());
        assert forall|marker: int| after.armed.contains(marker) implies 0 <= marker
            < after.parser.log.len() && after.parser.log[marker] == EventView::placeholder() by {
            if before.armed.contains(marker) {
                assert(before.parser.log[marker] == EventView::placeholder());
            }
        }
    }
}

/// A step that may be taken and keeps the nesting carries the invariant of
/// unfinished logs over.
proof fn lemma_step_keeps_nesting(session: Session, step: Step)
    requires
        session.nesting_holds(),
        session.permits(step),
        session.keeps_nesting(step),
    ensures
        session.apply(step).nesting_holds(),
{
    let a = session.parser.log;
    match step {
        Step::Consume => {
            lemma_record_leaf(
                a,
                session.armed,
                EventView::Token { kind: session.parser.lookahead(0) },
            );
        },
        Step::Eat { kind } => {
            if session.parser.lookahead(0) == kind {
                lemma_record_leaf(a, session.armed, EventView::Token { kind });
            }
        },
        Step::Error { message } => {
            lemma_record_leaf(a, session.armed, EventView::Error { message });
        },
        Step::Start => {
            lemma_open_node(a, session.armed);
        },
        Step::End { marker, kind } => {
            lemma_close_node(a, session.armed, marker, kind);
        },
        Step::Cancel { marker } => {
            lemma_retract_node(a, session.armed, marker);
        },
        _ => {},
    }
}

/// Along any sequence of steps that may be taken and keep the nesting, the
/// invariant of unfinished logs holds.
proof fn lemma_run_keeps_nesting(tokens: Seq<Token>, steps: Seq<Step>)
    requires
        Session::permitted(tokens, steps),
        Session::nested(tokens, steps),
    ensures
        Session::run(tokens, steps).nesting_holds(),
    decreases steps.len(),
{
    if steps.len() > 0 {
        lemma_run_keeps_nesting(tokens, steps.drop_last());
        lemma_step_keeps_nesting(Session::run(tokens, steps.drop_last()), steps.last());
    }
}

/// Once every marker has been ended or cancelled, the log encodes a forest:
/// every `Start` has its `Finish`, tokens and errors stand inside nodes, and
/// no node has the placeholder kind. This holds after any sequence of calls
/// in which tokens and errors are recorded only inside an open node, nodes
/// are committed to a kind other than the placeholder, and a node is
/// cancelled only before anything is recorded behind it.
pub proof fn lemma_finished_log_is_well_formed(tokens: Seq<Token>, steps: Seq<Step>)
    requires
        Session::permitted(tokens, steps),
        Session::nested(tokens, steps),
        !Session::run(tokens, steps).has_open_node(),
    ensures
        well_formed(Session::run(tokens, steps).parser.log),
{
    lemma_run_keeps_nesting(tokens, steps);
    let session = Session::run(tokens, steps);
    let log = session.parser.log;
    assert forall|i: int| 0 <= i < log.len() implies #[trigger] log[i]
        != EventView::placeholder() by {
        assert(!session.armed.contains(i));
    }
    assert forall|n: int| 0 <= n <= log.len() implies #[trigger] depth(log, n) >= 0 by {
        lemma_pending_counts(log, n);
    }
    lemma_pending_counts(log, log.len() as int);
}

/// One step moves the cursor by one token if it is a `consume` or an `eat`
/// that matches, and leaves it where it is if not; the tokens never change.
/// As long as the cursor stays, so does the token at every distance ahead.
pub proof fn lemma_step_moves_cursor(session: Session, step: Step, offset: nat)
    ensures
        session.apply(step).parser.tokens == session.parser.tokens,
        session.advances(step) ==> session.apply(step).parser.cursor == session.parser.cursor + 1,
        !session.advances(step) ==> session.apply(step).parser.cursor == session.parser.cursor,
        !session.advances(step) ==> session.apply(step).parser.lookahead(offset)
            == session.parser.lookahead(offset),
{
}

/// Along any sequence of steps the tokens stay those that the parser was
/// made for and, if every step may be taken, the cursor stays within them.
pub proof fn lemma_run_stays_in_input(tokens: Seq<Token>, steps: Seq<Step>)
    ensures
        Session::run(tokens, steps).parser.tokens == tokens,
        Session::permitted(tokens, steps) ==> Session::run(tokens, steps).parser.wf(),
    decreases steps.len(),
{
    if steps.len() > 0 {
        lemma_run_stays_in_input(tokens, steps.drop_last());
        lemma_step_moves_cursor(Session::run(tokens, steps.drop_last()), steps.last(), 0);
    }
}

/// The cursor never moves back: after the first `n` of `steps` it is at most
/// where it is after all of them. Where it has not moved in between, the
/// token at every distance ahead is the same.
pub proof fn lemma_cursor_never_retreats(tokens: Seq<Token>, steps: Seq<Step>, n: int, offset: nat)
    requires
        0 <= n <= steps.len(),
    ensures
        Session::run(tokens, steps.take(n)).parser.cursor <= Session::run(
            tokens,
            steps,
        ).parser.cursor,
        Session::run(tokens, steps.take(n)).parser.cursor == Session::run(
            tokens,
            steps,
        ).parser.cursor ==> Session::run(tokens, steps.take(n)).parser.lookahead(offset)
            == Session::run(tokens, steps).parser.lookahead(offset),
    decreases steps.len(),
{
    lemma_run_stays_in_input(tokens, steps);
    lemma_run_stays_in_input(tokens, steps.take(n));
    if n == steps.len() {
        assert(steps.take(n) =~= steps);
    } else {
        assert(steps.drop_last().take(n) =~= steps.take(n));
        lemma_cursor_never_retreats(tokens, steps.drop_last(), n, offset);
        lemma_step_moves_cursor(Session::run(tokens, steps.drop_last()), steps.last(), offset);
    }
}

/// As long as no `layout_end` closes the bottom context, the layout stack is
/// never empty and the root context stays at its bottom.
pub proof fn lemma_stack_stays_rooted(tokens: Seq<Token>, steps: Seq<Step>)
    requires
        Session::balanced(tokens, steps),
    ensures
        Session::run(tokens, steps).rooted(),
    decreases steps.len(),
{
    lemma_run_stays_in_input(tokens, steps);
    if steps.len() > 0 {
        lemma_stack_stays_rooted(tokens, steps.drop_last());
        lemma_run_stays_in_input(tokens, steps.drop_last());
    }
}

/// Whether the lines of `tokens` count from one and never go back.
pub open spec fn lines_ascend(tokens: Seq<Token>) -> bool {
    &&& forall|i: int| 0 <= i < tokens.len() ==> (#[trigger] tokens[i]).position.line >= 1
    &&& forall|i: int, j: int|
        0 <= i <= j < tokens.len() ==> (#[trigger] tokens[i]).position.line <= (
        #[trigger] tokens[j]).position.line
}

/// Whether no token that is still to be consumed lies on a line before the
/// anchor of an open layout context.
pub open spec fn anchors_precede_cursor(parser: ParserView) -> bool {
    forall|k: int, j: int|
        0 <= k < parser.layouts.len() && parser.cursor <= j < parser.tokens.len() ==> (
        #[trigger] parser.layouts[k]).position.line <= (#[trigger] parser.tokens[j]).position.line
}

/// Over tokens whose lines never go back, no token that is still to be
/// consumed lies on a line before the anchor of an open layout context. The
/// offside rule may then be polled whenever the innermost context is not the
/// root.
pub proof fn lemma_anchors_precede_cursor(tokens: Seq<Token>, steps: Seq<Step>)
    requires
        lines_ascend(tokens),
        Session::permitted(tokens, steps),
    ensures
        anchors_precede_cursor(Session::run(tokens, steps).parser),
        ({
            let parser = Session::run(tokens, steps).parser;
            parser.layouts.len() > 0 && parser.top().kind != LayoutKind::Root
                ==> parser.can_poll()
        }),
    decreases steps.len(),
{
    lemma_run_stays_in_input(tokens, steps);
    let after = Session::run(tokens, steps).parser;
    if steps.len() > 0 {
        let before = Session::run(tokens, steps.drop_last()).parser;
        lemma_anchors_precede_cursor(tokens, steps.drop_last());
        lemma_run_stays_in_input(tokens, steps.drop_last());
        assert forall|k: int, j: int|
            0 <= k < after.layouts.len() && after.cursor <= j < after.tokens.len() implies (
        #[trigger] after.layouts[k]).position.line <= (#[trigger] after.tokens[j]).position.line by {
            if k < before.layouts.len() {
                assert(after.layouts[k] == before.layouts[k]);
            } else {
                assert(after.layouts[k].position == tokens[before.cursor as int].position);
            }
        }
    }
    if after.layouts.len() > 0 && !after.at_end() {
        assert(after.layouts[after.layouts.len() - 1].position.line
            <= after.tokens[after.cursor as int].position.line);
    }
}

} // verus!
