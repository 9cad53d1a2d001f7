//! The lifecycle log kept by the scheduler.
//!
//! Every state change of a node is recorded as an [`Event`] in an
//! append-only log.  The order of the log is the order in which the
//! lifecycle steps happened; observers derive their `on_started` /
//! `on_finished` / `on_failed` callbacks from it.

use vstd::prelude::*;

verus! {

/// The kind of a lifecycle event.
#[derive(Debug, Clone, Copy, PartialEq, Eq, Structural)]
pub enum EventKind {
    /// The node's `run(Perform)` began.
    Started,
    /// The node's `run(Perform)` returned successfully.
    Finished,
    /// The node's probe or `run` returned an error.
    Failed,
    /// The node's probe reported nothing to do; `run` was skipped.
    Skipped,
    /// The node's `run(Rollback)` began.
    RollbackStarted,
    /// The node's `run(Rollback)` returned successfully.
    RollbackFinished,
    /// The node's `run(Rollback)` returned an error.
    RollbackFailed,
}

/// One entry of the lifecycle log: what happened to which node.
///
/// Nodes are named by their position in the frozen graph.
#[derive(Debug, Clone, Copy, PartialEq, Eq, Structural)]
pub struct Event {
    /// What happened.
    pub kind: EventKind,
    /// The index of the node it happened to.
    pub node: usize,
}

/// The event of the given kind for the given node.
pub open spec fn ev(kind: EventKind, node: usize) -> Event {
    Event { kind, node }
}

/// How many times `e` occurs in `log`.
pub open spec fn count_events(log: Seq<Event>, e: Event) -> int
    decreases log.len(),
{
    if log.len() == 0 {
        0
    } else {
        count_events(log.drop_last(), e) + if log.last() == e {
            1int
        } else {
            0int
        }
    }
}

/// Appending one event raises exactly its own count by one.
pub proof fn lemma_count_push(log: Seq<Event>, x: Event, e: Event)
    ensures
        count_events(log.push(x), e) == count_events(log, e) + if x == e {
            1int
        } else {
            0int
        },
{
    assert(log.push(x).drop_last() =~= log);
    assert(log.push(x).last() == x);
}

/// An occurrence count is never negative.
pub proof fn lemma_count_nonneg(log: Seq<Event>, e: Event)
    ensures
        count_events(log, e) >= 0,
    decreases log.len(),
{
    if log.len() > 0 {
        lemma_count_nonneg(log.drop_last(), e);
    }
}

/// The position of the latest event in `log` equal to `e`, or `-1` if
/// there is none.
pub open spec fn last_pos(log: Seq<Event>, e: Event) -> int
    decreases log.len(),
{
    if log.len() == 0 {
        -1
    } else if log.last() == e {
        log.len() - 1
    } else {
        last_pos(log.drop_last(), e)
    }
}

/// `last_pos` either reports no occurrence or points at one.
pub proof fn lemma_last_pos(log: Seq<Event>, e: Event)
    ensures
        last_pos(log, e) == -1 || (0 <= last_pos(log, e) < log.len() && log[last_pos(log, e)]
            == e),
    decreases log.len(),
{
    if log.len() > 0 && log.last() != e {
        lemma_last_pos(log.drop_last(), e);
        if last_pos(log.drop_last(), e) >= 0 {
            let t = last_pos(log.drop_last(), e);
            assert(log[t] == log.drop_last()[t]);
        }
    }
}

/// Whenever an event occurs at all, `last_pos` finds it.
pub proof fn lemma_last_pos_of_count(log: Seq<Event>, e: Event)
    requires
        count_events(log, e) > 0,
    ensures
        0 <= last_pos(log, e) < log.len(),
        log[last_pos(log, e)] == e,
    decreases log.len(),
{
    lemma_last_pos(log, e);
    if log.last() != e {
        lemma_last_pos_of_count(log.drop_last(), e);
    }
}

/// Taking a prefix commutes with appending beyond it.
pub proof fn lemma_take_push(log: Seq<Event>, x: Event, p: int)
    requires
        0 <= p <= log.len(),
    ensures
        log.push(x).take(p) == log.take(p),
{
    assert(log.push(x).take(p) =~= log.take(p));
}

/// `a` is an initial segment of `b`.
pub open spec fn is_prefix(a: Seq<Event>, b: Seq<Event>) -> bool {
    a.len() <= b.len() && a == b.take(a.len() as int)
}

/// Every log is a prefix of itself.
pub proof fn lemma_prefix_refl(a: Seq<Event>)
    ensures
        is_prefix(a, a),
{
    assert(a.take(a.len() as int) =~= a);
}

/// Appending extends a log: the old log is a prefix of the new one.
pub proof fn lemma_prefix_push(a: Seq<Event>, x: Event)
    ensures
        is_prefix(a, a.push(x)),
{
    assert(a.push(x).take(a.len() as int) =~= a);
}

/// Prefixes chain.
pub proof fn lemma_prefix_trans(a: Seq<Event>, b: Seq<Event>, c: Seq<Event>)
    requires
        is_prefix(a, b),
        is_prefix(b, c),
    ensures
        is_prefix(a, c),
{
    assert(a =~= c.take(a.len() as int)) by {
        assert forall|p: int| 0 <= p < a.len() implies a[p] == c.take(a.len() as int)[p] by {
            assert(a[p] == b.take(a.len() as int)[p]);
            assert(b[p] == c.take(b.len() as int)[p]);
        }
    }
}

/// The nodes whose `run(Rollback)` began, in the order they began.
pub open spec fn rollback_starts(log: Seq<Event>) -> Seq<usize>
    decreases log.len(),
{
    if log.len() == 0 {
        Seq::empty()
    } else {
        let rest = rollback_starts(log.drop_last());
        if log.last().kind is RollbackStarted {
            rest.push(log.last().node)
        } else {
            rest
        }
    }
}

/// Appending beyond a cut point appends to the part after the cut.
pub proof fn lemma_skip_push(log: Seq<Event>, x: Event, b: int)
    requires
        0 <= b <= log.len(),
    ensures
        log.push(x).skip(b) == log.skip(b).push(x),
{
    assert(log.push(x).skip(b) =~= log.skip(b).push(x));
}

} // verus!
