//! When an event log encodes a tree.
//!
//! Reading a log from its start, every `Start` opens a node and every
//! `Finish` closes the innermost open one. The log encodes a forest when no
//! `Finish` comes without an open node, every node is closed at the end,
//! tokens and errors stand inside some node, and no node is left with the
//! placeholder kind.

use vstd::prelude::*;
use crate::event::EventView;

verus! {

/// What an event adds to the number of open nodes.
pub open spec fn weight(event: EventView) -> int {
    match event {
        EventView::Start { .. } => 1,
        EventView::Finish => -1,
        _ => 0,
    }
}

/// The number of nodes that are open after the first `n` events of `log`:
/// the `Start`s among them less the `Finish`es.
pub open spec fn depth(log: Seq<EventView>, n: int) -> int
    decreases n,
{
    if n <= 0 {
        0
    } else {
        depth(log, n - 1) + weight(log[n - 1])
    }
}

/// The number of placeholders among the first `n` events of `log`.
pub open spec fn pending(log: Seq<EventView>, n: int) -> int
    decreases n,
{
    if n <= 0 {
        0
    } else {
        pending(log, n - 1) + if log[n - 1] == EventView::placeholder() {
            1int
        } else {
            0int
        }
    }
}

/// Whether `log` encodes a forest of finished nodes.
pub open spec fn well_formed(log: Seq<EventView>) -> bool {
    &&& forall|n: int| 0 <= n <= log.len() ==> #[trigger] depth(log, n) >= 0
    &&& depth(log, log.len() as int) == 0
    &&& forall|i: int| 0 <= i < log.len() && (#[trigger] log[i]).is_leaf() ==> depth(log, i) > 0
    &&& forall|i: int| 0 <= i < log.len() ==> #[trigger] log[i] != EventView::placeholder()
}

/// Two logs that agree on their first `n` events have the same depth and the
/// same number of placeholders there.
pub proof fn lemma_common_prefix(a: Seq<EventView>, b: Seq<EventView>, n: int)
    requires
        0 <= n <= a.len(),
        n <= b.len(),
        forall|j: int| 0 <= j < n ==> a[j] == b[j],
    ensures
        depth(a, n) == depth(b, n),
        pending(a, n) == pending(b, n),
    decreases n,
{
    if n > 0 {
        lemma_common_prefix(a, b, n - 1);
    }
}

/// Committing the node at `index` to a kind leaves every depth as it was. If
/// the node was a placeholder and the kind is a real one, there is one
/// placeholder fewer from `index` on.
pub proof fn lemma_commit(a: Seq<EventView>, index: int, kind: crate::syntax::SyntaxKind, n: int)
    requires
        0 <= index < a.len(),
        a[index] is Start,
        0 <= n <= a.len(),
    ensures
        depth(a.update(index, EventView::Start { kind }), n) == depth(a, n),
        a[index] == EventView::placeholder() && kind != crate::syntax::SyntaxKind::Sentinel
            ==> pending(a.update(index, EventView::Start { kind }), n) == pending(a, n) - if n
            > index {
            1int
        } else {
            0int
        },
    decreases n,
{
    if n > 0 {
        lemma_commit(a, index, kind, n - 1);
    }
}

/// There are never fewer than no placeholders, and at least one once a
/// placeholder has been passed.
pub proof fn lemma_pending_counts(log: Seq<EventView>, n: int)
    requires
        0 <= n <= log.len(),
    ensures
        pending(log, n) >= 0,
        forall|i: int| 0 <= i < n && #[trigger] log[i] == EventView::placeholder() ==> pending(log, n) >= 1,
        (forall|i: int| 0 <= i < n ==> #[trigger] log[i] != EventView::placeholder()) ==> pending(log, n) == 0,
    decreases n,
{
    if n > 0 {
        lemma_pending_counts(log, n - 1);
    }
}

/// Appending an event leaves what was counted before as it was, and counts
/// the new event on top.
pub proof fn lemma_push(a: Seq<EventView>, event: EventView)
    ensures
        forall|n: int| 0 <= n <= a.len() ==> #[trigger] depth(a.push(event), n) == depth(a, n),
        forall|n: int| 0 <= n <= a.len() ==> #[trigger] pending(a.push(event), n) == pending(a, n),
        depth(a.push(event), a.len() as int + 1) == depth(a, a.len() as int) + weight(event),
        pending(a.push(event), a.len() as int + 1) == pending(a, a.len() as int) + if event
            == EventView::placeholder() {
            1int
        } else {
            0int
        },
{
    let b = a.push(event);
    assert forall|n: int| 0 <= n <= a.len() implies #[trigger] depth(b, n) == depth(a, n) by {
        lemma_common_prefix(a, b, n);
    }
    assert forall|n: int| 0 <= n <= a.len() implies #[trigger] pending(b, n) == pending(a, n) by {
        lemma_common_prefix(a, b, n);
    }
    let len = a.len() as int;
    assert(b[len] == event);
    assert(depth(b, len + 1) == depth(b, len) + weight(b[len]));
    assert(depth(b, len) == depth(a, len));
    assert(pending(b, len) == pending(a, len));
}

/// Removing the last event leaves what was counted before it as it was.
pub proof fn lemma_drop_last(a: Seq<EventView>)
    requires
        a.len() > 0,
    ensures
        forall|n: int| 0 <= n < a.len() ==> #[trigger] depth(a.drop_last(), n) == depth(a, n),
        forall|n: int| 0 <= n < a.len() ==> #[trigger] pending(a.drop_last(), n) == pending(a, n),
{
    let b = a.drop_last();
    assert forall|n: int| 0 <= n < a.len() implies #[trigger] depth(b, n) == depth(a, n) by {
        lemma_common_prefix(a, b, n);
    }
    assert forall|n: int| 0 <= n < a.len() implies #[trigger] pending(b, n) == pending(a, n) by {
        lemma_common_prefix(a, b, n);
    }
}

} // verus!
