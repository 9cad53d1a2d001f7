//! The scheduling state machine of the runtime.
//!
//! The scheduler tracks, for a frozen graph, the lifecycle status of every
//! node, the outputs published so far, the append-only lifecycle log, and
//! the first error surfaced.  Drivers — the serial executor in this crate
//! or a concurrent one outside it — move nodes through
//! `begin_probe` / `finish_probe` / `finish_run` and the scheduler
//! guarantees the ordering discipline: a node starts only after every
//! prerequisite settled, runs at most once, skips without a trace of
//! `Started`/`Finished`, and nothing starts after a failure surfaced.

use vstd::prelude::*;
use vstd::pervasive::VecAdditionalExecFns;

use crate::error::ActionError;
use crate::event::{
    ev, count_events, last_pos, lemma_count_push, lemma_last_pos, lemma_last_pos_of_count,
    lemma_take_push, Event, EventKind,
};
use crate::output::{opt_output_model, ActionOutput, OutputModel};
use crate::Probe;

verus! {

/// The lifecycle status of a node.
#[derive(Debug, Clone, Copy, PartialEq, Eq, Structural)]
pub enum Status {
    /// Not yet picked up; waiting for prerequisites.
    Pending,
    /// The probe call is in flight.
    Probing,
    /// The probe asked for a run; `run(Perform)` is in flight.
    Running,
    /// The probe reported nothing to do; the node settled without running.
    Skipped,
    /// `run(Perform)` returned successfully; the node settled.
    Done,
    /// The probe or the run returned an error.
    Failed,
    /// The node was abandoned because an error surfaced elsewhere.
    Cancelled,
}

impl Status {
    /// A settled node has released its dependents.
    pub open spec fn is_settled(self) -> bool {
        self is Skipped || self is Done
    }

    /// An active node is between the start of its probe and the end of
    /// its run.
    pub open spec fn is_active(self) -> bool {
        self is Probing || self is Running
    }

    /// Whether this status releases dependents (runtime check).
    pub fn settled(self) -> (r: bool)
        ensures
            r == self.is_settled(),
    {
        matches!(self, Status::Skipped | Status::Done)
    }
}

/// An event that settles node `d` without an error: its run finished or
/// it was skipped.
pub open spec fn settles(e: Event, d: usize) -> bool {
    e == ev(EventKind::Finished, d) || e == ev(EventKind::Skipped, d)
}

/// Before position `p` of `log`, node `d` has finished or been skipped.
pub open spec fn settled_before(log: Seq<Event>, p: int, d: usize) -> bool {
    last_pos(log.take(p), ev(EventKind::Finished, d)) >= 0 || last_pos(
        log.take(p),
        ev(EventKind::Skipped, d),
    ) >= 0
}

/// A settle mark before `p` is indeed a position `q < p` at which `d`
/// finished or was skipped.
pub proof fn lemma_settled_before(log: Seq<Event>, p: int, d: usize)
    requires
        0 <= p <= log.len(),
        settled_before(log, p, d),
    ensures
        exists|q: int| 0 <= q < p && settles(#[trigger] log[q], d),
{
    lemma_last_pos(log.take(p), ev(EventKind::Finished, d));
    lemma_last_pos(log.take(p), ev(EventKind::Skipped, d));
    if last_pos(log.take(p), ev(EventKind::Finished, d)) >= 0 {
        let q = last_pos(log.take(p), ev(EventKind::Finished, d));
        assert(log[q] == log.take(p)[q]);
        assert(settles(log[q], d));
    } else {
        let q = last_pos(log.take(p), ev(EventKind::Skipped, d));
        assert(log[q] == log.take(p)[q]);
        assert(settles(log[q], d));
    }
}

/// How many nodes of `s` are still pending.
pub open spec fn count_pending(s: Seq<Status>) -> int
    decreases s.len(),
{
    if s.len() == 0 {
        0
    } else {
        count_pending(s.drop_last()) + if s.last() is Pending {
            1int
        } else {
            0int
        }
    }
}

/// How many entries of `s` are set.
spec fn count_marked(s: Seq<bool>) -> int
    decreases s.len(),
{
    if s.len() == 0 {
        0
    } else {
        count_marked(s.drop_last()) + if s.last() {
            1int
        } else {
            0int
        }
    }
}

/// Setting an unset mark raises the count by one, and the count never
/// exceeds the length.
proof fn lemma_count_marked_update(s: Seq<bool>, i: int)
    requires
        0 <= i < s.len(),
        !s[i],
    ensures
        count_marked(s.update(i, true)) == count_marked(s) + 1,
        count_marked(s.update(i, true)) <= s.len(),
    decreases s.len(),
{
    lemma_count_marked_le(s.update(i, true));
    if i == s.len() - 1 {
        assert(s.update(i, true).drop_last() =~= s.drop_last());
    } else {
        assert(s.update(i, true).drop_last() =~= s.drop_last().update(i, true));
        lemma_count_marked_update(s.drop_last(), i);
    }
}

/// A mark count never exceeds the length.
proof fn lemma_count_marked_le(s: Seq<bool>)
    ensures
        count_marked(s) <= s.len(),
        count_marked(s) >= 0,
    decreases s.len(),
{
    if s.len() > 0 {
        lemma_count_marked_le(s.drop_last());
    }
}

/// A pending count is never negative.
pub proof fn lemma_count_pending_nonneg(s: Seq<Status>)
    ensures
        count_pending(s) >= 0,
    decreases s.len(),
{
    if s.len() > 0 {
        lemma_count_pending_nonneg(s.drop_last());
    }
}

/// Replacing a pending status by a non-pending one lowers the pending
/// count by exactly one.
pub proof fn lemma_count_pending_update(s: Seq<Status>, i: int, x: Status)
    requires
        0 <= i < s.len(),
        s[i] is Pending,
        !(x is Pending),
    ensures
        count_pending(s.update(i, x)) == count_pending(s) - 1,
    decreases s.len(),
{
    if i == s.len() - 1 {
        assert(s.update(i, x).drop_last() =~= s.drop_last());
    } else {
        assert(s.update(i, x).drop_last() =~= s.drop_last().update(i, x));
        lemma_count_pending_update(s.drop_last(), i, x);
    }
}

/// Replacing a non-pending status by a non-pending one keeps the pending
/// count.
pub proof fn lemma_count_pending_update_stable(s: Seq<Status>, i: int, x: Status)
    requires
        0 <= i < s.len(),
        !(s[i] is Pending),
        !(x is Pending),
    ensures
        count_pending(s.update(i, x)) == count_pending(s),
    decreases s.len(),
{
    if i == s.len() - 1 {
        assert(s.update(i, x).drop_last() =~= s.drop_last());
    } else {
        assert(s.update(i, x).drop_last() =~= s.drop_last().update(i, x));
        lemma_count_pending_update_stable(s.drop_last(), i, x);
    }
}

/// The two schedulers describe the same frozen graph.
pub open spec fn same_graph(pre: Scheduler, post: Scheduler) -> bool {
    &&& post.node_count() == pre.node_count()
    &&& post.deps_seq() == pre.deps_seq()
}

/// The scheduling state of one workflow.
pub struct Scheduler {
    deps: Vec<Vec<usize>>,
    status: Vec<Status>,
    outputs: Vec<Option<ActionOutput>>,
    log: Vec<Event>,
    failure: Option<ActionError>,
}

impl Scheduler {
    /// The number of nodes in the graph.
    pub closed spec fn node_count(&self) -> int {
        self.deps@.len() as int
    }

    /// The prerequisite lists, as node indices.
    pub closed spec fn deps_seq(&self) -> Seq<Seq<usize>> {
        self.deps@.map_values(|d: Vec<usize>| d@)
    }

    /// The prerequisites of node `i`.
    pub open spec fn deps_of(&self, i: int) -> Seq<usize> {
        self.deps_seq()[i]
    }

    /// The status of every node.
    pub closed spec fn statuses(&self) -> Seq<Status> {
        self.status@
    }

    /// The status of node `i`.
    pub open spec fn status_of(&self, i: int) -> Status {
        self.statuses()[i]
    }

    /// The published outputs, one slot per node.
    pub closed spec fn outputs_model(&self) -> Seq<Option<OutputModel>> {
        Seq::new(self.outputs@.len() as nat, |i: int| opt_output_model(self.outputs@[i]))
    }

    /// The output slot of node `i`.
    pub open spec fn output_of(&self, i: int) -> Option<OutputModel> {
        self.outputs_model()[i]
    }

    /// The lifecycle log, oldest first.
    pub closed spec fn log(&self) -> Seq<Event> {
        self.log@
    }

    /// The first error surfaced, if any.
    pub closed spec fn failure(&self) -> Option<ActionError> {
        self.failure
    }

    // ------------------------------------------------------------------
    // The invariant.
    // ------------------------------------------------------------------

    spec fn wf(&self) -> bool {
        &&& self.status@.len() == self.deps@.len()
        &&& self.outputs@.len() == self.deps@.len()
        &&& forall|i: int, k: int|
            0 <= i < self.deps@.len() && 0 <= k < self.deps@[i]@.len() ==> (
            #[trigger] self.deps@[i]@[k]) < self.deps@.len()
    }

    /// The log agrees with the status of node `i`: each lifecycle event
    /// appears exactly as often as the status implies.
    spec fn counts_ok_at(&self, i: int) -> bool {
        let cs = count_events(self.log@, ev(EventKind::Started, i as usize));
        let cf = count_events(self.log@, ev(EventKind::Finished, i as usize));
        let cx = count_events(self.log@, ev(EventKind::Failed, i as usize));
        let ck = count_events(self.log@, ev(EventKind::Skipped, i as usize));
        match self.status@[i] {
            Status::Pending => cs == 0 && cf == 0 && cx == 0 && ck == 0,
            Status::Probing => cs == 0 && cf == 0 && cx == 0 && ck == 0,
            Status::Cancelled => cs == 0 && cf == 0 && cx == 0 && ck == 0,
            Status::Running => cs == 1 && cf == 0 && cx == 0 && ck == 0,
            Status::Done => cs == 1 && cf == 1 && cx == 0 && ck == 0,
            Status::Skipped => cs == 0 && cf == 0 && cx == 0 && ck == 1,
            Status::Failed => cx == 1 && ck == 0 && cf == 0 && 0 <= cs <= 1,
        }
    }

    spec fn counts_ok(&self) -> bool {
        forall|i: int| 0 <= i < self.node_count() ==> #[trigger] self.counts_ok_at(i)
    }

    /// While a node is being probed or run, all its prerequisites stay
    /// settled.
    spec fn active_deps_settled(&self) -> bool {
        forall|i: int, k: int|
            #![trigger self.deps@[i]@[k]]
            0 <= i < self.node_count() && self.status@[i].is_active() && 0 <= k
                < self.deps@[i]@.len() ==> self.status@[self.deps@[i]@[k] as int].is_settled()
    }

    /// An output is published only by a completed run.
    spec fn outputs_ok(&self) -> bool {
        forall|i: int|
            0 <= i < self.node_count() && (#[trigger] self.outputs@[i]) is Some
                ==> self.status@[i] is Done
    }

    /// Before a node starts, each of its prerequisites has finished or
    /// been skipped, earlier in the log.
    spec fn dep_order_ok(&self) -> bool {
        forall|i: int, k: int, p: int|
            #![trigger self.deps@[i]@[k], self.log@[p]]
            0 <= i < self.node_count() && 0 <= k < self.deps@[i]@.len() && 0 <= p
                < self.log@.len() && self.log@[p] == ev(EventKind::Started, i as usize)
                ==> settled_before(self.log@, p, self.deps@[i]@[k])
    }

    /// Once a failure is in the log, no node starts any more.
    spec fn no_started_after_failed(&self) -> bool {
        forall|p: int, q: int|
            #![trigger self.log@[p], self.log@[q]]
            0 <= p < q < self.log@.len() && self.log@[p].kind is Failed ==> !(self.log@[q].kind
                is Started)
    }

    /// A `Failed` event is in the log only once an error was surfaced.
    spec fn failed_only_with_failure(&self) -> bool {
        self.failure is None ==> forall|p: int|
            0 <= p < self.log@.len() ==> !((#[trigger] self.log@[p]).kind is Failed)
    }

    spec fn log_nodes_ok(&self) -> bool {
        forall|p: int|
            0 <= p < self.log@.len() ==> (#[trigger] self.log@[p]).node < self.node_count()
    }

    /// The scheduler invariant: every reachable state satisfies it.
    pub closed spec fn inv(&self) -> bool {
        &&& self.wf()
        &&& self.counts_ok()
        &&& self.active_deps_settled()
        &&& self.outputs_ok()
        &&& self.dep_order_ok()
        &&& self.no_started_after_failed()
        &&& self.failed_only_with_failure()
        &&& self.log_nodes_ok()
    }

    // ------------------------------------------------------------------
    // Derived conditions.
    // ------------------------------------------------------------------

    /// A node may start when it is still pending, no error has surfaced,
    /// and every prerequisite has settled.
    pub open spec fn spec_can_start(&self, i: int) -> bool {
        &&& 0 <= i < self.node_count()
        &&& self.status_of(i) is Pending
        &&& self.failure() is None
        &&& forall|k: int|
            0 <= k < self.deps_of(i).len() ==> (#[trigger] self.status_of(
                self.deps_of(i)[k] as int,
            )).is_settled()
    }

    /// Every node has settled successfully.
    pub open spec fn spec_all_settled(&self) -> bool {
        forall|i: int|
            0 <= i < self.node_count() ==> (#[trigger] self.status_of(i)).is_settled()
    }

    // ------------------------------------------------------------------
    // Construction and queries.
    // ------------------------------------------------------------------

    /// A fresh scheduler over a frozen graph: everything pending, the log
    /// empty, no outputs, no failure.
    pub fn new(deps: Vec<Vec<usize>>) -> (r: Scheduler)
        requires
            forall|i: int, k: int|
                0 <= i < deps@.len() && 0 <= k < deps@[i]@.len() ==> (#[trigger] deps@[i]@[k])
                    < deps@.len(),
        ensures
            r.inv(),
            r.node_count() == deps@.len(),
            forall|i: int| 0 <= i < deps@.len() ==> r.deps_of(i) == #[trigger] deps@[i]@,
            forall|i: int| 0 <= i < deps@.len() ==> #[trigger] r.status_of(i) is Pending,
            r.log() == Seq::<Event>::empty(),
            forall|i: int| 0 <= i < deps@.len() ==> #[trigger] r.output_of(i) is None,
            r.failure() is None,
            count_pending(r.statuses()) == deps@.len(),
    {
        let n = deps.len();
        let mut status: Vec<Status> = Vec::new();
        let mut outputs: Vec<Option<ActionOutput>> = Vec::new();
        let mut j: usize = 0;
        while j < n
            invariant
                j <= n,
                status@.len() == j,
                outputs@.len() == j,
                forall|i: int| 0 <= i < j ==> #[trigger] status@[i] is Pending,
                forall|i: int| 0 <= i < j ==> #[trigger] outputs@[i] is None,
                count_pending(status@) == j,
            decreases n - j,
        {
            let ghost old_status = status@;
            status.push(Status::Pending);
            outputs.push(None);
            proof {
                assert(status@.drop_last() =~= old_status);
            }
            j = j + 1;
        }
        let r = Scheduler { deps, status, outputs, log: Vec::new(), failure: None };
        proof {
            assert forall|i: int| 0 <= i < r.node_count() implies #[trigger] r.counts_ok_at(
                i,
            ) by {
                assert(count_events(r.log@, ev(EventKind::Started, i as usize)) == 0);
                assert(count_events(r.log@, ev(EventKind::Finished, i as usize)) == 0);
                assert(count_events(r.log@, ev(EventKind::Failed, i as usize)) == 0);
                assert(count_events(r.log@, ev(EventKind::Skipped, i as usize)) == 0);
            }
        }
        r
    }

    /// The number of nodes.
    pub fn len(&self) -> (r: usize)
        ensures
            r == self.node_count(),
    {
        self.deps.len()
    }

    /// The status of node `i`.
    pub fn status(&self, i: usize) -> (r: Status)
        requires
            self.inv(),
            i < self.node_count(),
        ensures
            r == self.status_of(i as int),
    {
        self.status[i]
    }

    /// The first error surfaced so far, if any.
    pub fn failure_value(&self) -> (r: Option<ActionError>)
        ensures
            r == self.failure(),
    {
        match &self.failure {
            Some(e) => Some(e.clone()),
            None => None,
        }
    }

    /// A copy of the output published by node `i`, if any.
    pub fn output(&self, i: usize) -> (r: Option<ActionOutput>)
        requires
            self.inv(),
            i < self.node_count(),
        ensures
            opt_output_model(r) == self.output_of(i as int),
    {
        match &self.outputs[i] {
            Some(v) => Some(v.clone()),
            None => None,
        }
    }

    /// A copy of the whole output store.
    pub fn outputs_snapshot(&self) -> (r: Vec<Option<ActionOutput>>)
        requires
            self.inv(),
        ensures
            r@.len() == self.node_count(),
            forall|i: int|
                0 <= i < self.node_count() ==> opt_output_model(#[trigger] r@[i])
                    == self.output_of(i),
    {
        let mut r: Vec<Option<ActionOutput>> = Vec::new();
        let n = self.outputs.len();
        let mut j: usize = 0;
        while j < n
            invariant
                self.inv(),
                j <= n,
                n == self.node_count(),
                r@.len() == j,
                forall|i: int|
                    0 <= i < j ==> opt_output_model(#[trigger] r@[i]) == self.output_of(i),
            decreases n - j,
        {
            let entry = match &self.outputs[j] {
                Some(v) => Some(v.clone()),
                None => None,
            };
            r.push(entry);
            j = j + 1;
        }
        r
    }

    /// A copy of the lifecycle log.
    pub fn log_snapshot(&self) -> (r: Vec<Event>)
        ensures
            r@ == self.log(),
    {
        let mut r: Vec<Event> = Vec::new();
        let n = self.log.len();
        let mut j: usize = 0;
        while j < n
            invariant
                j <= n,
                n == self.log@.len(),
                r@ == self.log@.subrange(0, j as int),
            decreases n - j,
        {
            r.push(self.log[j]);
            proof {
                assert(r@ =~= self.log@.subrange(0, j + 1 as int));
            }
            j = j + 1;
        }
        proof {
            assert(r@ =~= self.log@);
        }
        r
    }

    /// Whether node `i` may start now.
    pub fn can_start(&self, i: usize) -> (r: bool)
        requires
            self.inv(),
            i < self.node_count(),
        ensures
            r == self.spec_can_start(i as int),
    {
        if !matches!(self.status[i], Status::Pending) {
            return false;
        }
        if self.failure.is_some() {
            return false;
        }
        let ds = &self.deps[i];
        let m = ds.len();
        let mut k: usize = 0;
        while k < m
            invariant
                self.inv(),
                i < self.node_count(),
                m == self.deps_of(i as int).len(),
                ds == &self.deps[i as int],
                k <= m,
                forall|k2: int|
                    0 <= k2 < k ==> (#[trigger] self.status_of(
                        self.deps_of(i as int)[k2] as int,
                    )).is_settled(),
            decreases m - k,
        {
            let d = ds[k];
            if !self.status[d].settled() {
                proof {
                    assert(self.deps_of(i as int)[k as int] == d);
                    assert(!(self.status_of(d as int).is_settled()));
                }
                return false;
            }
            k = k + 1;
        }
        true
    }

    /// Some node that may start now, if there is one.
    pub fn next_startable(&self) -> (r: Option<usize>)
        requires
            self.inv(),
        ensures
            match r {
                Some(i) => i < self.node_count() && self.spec_can_start(i as int),
                None => forall|i: int| 0 <= i < self.node_count() ==> !self.spec_can_start(i),
            },
    {
        let n = self.deps.len();
        let mut j: usize = 0;
        while j < n
            invariant
                self.inv(),
                n == self.node_count(),
                j <= n,
                forall|i: int| 0 <= i < j ==> !self.spec_can_start(i),
            decreases n - j,
        {
            if self.can_start(j) {
                return Some(j);
            }
            j = j + 1;
        }
        None
    }

    /// Whether every node has settled successfully.
    pub fn all_settled(&self) -> (r: bool)
        requires
            self.inv(),
        ensures
            r == self.spec_all_settled(),
    {
        let n = self.status.len();
        let mut j: usize = 0;
        while j < n
            invariant
                self.inv(),
                n == self.statuses().len(),
                n == self.node_count(),
                j <= n,
                forall|i: int| 0 <= i < j ==> (#[trigger] self.status_of(i)).is_settled(),
            decreases n - j,
        {
            if !self.status[j].settled() {
                proof {
                    assert(!(self.status_of(j as int).is_settled()));
                }
                return false;
            }
            j = j + 1;
        }
        true
    }

    /// Whether every node that lists `x` among its prerequisites is
    /// marked in `done`.
    fn dependents_done(&self, x: usize, done: &Vec<bool>) -> (r: bool)
        requires
            self.inv(),
            x < self.node_count(),
            done@.len() == self.node_count(),
        ensures
            r ==> forall|j: int|
                0 <= j < self.node_count() && (#[trigger] self.deps_of(j)).contains(x)
                    ==> done@[j],
            !r ==> exists|j: int|
                0 <= j < self.node_count() && (#[trigger] self.deps_of(j)).contains(x)
                    && !done@[j],
    {
        let n = self.deps.len();
        let mut j: usize = 0;
        while j < n
            invariant
                self.inv(),
                n == self.node_count(),
                done@.len() == self.node_count(),
                x < self.node_count(),
                j <= n,
                forall|j2: int|
                    0 <= j2 < j && (#[trigger] self.deps_of(j2)).contains(x) ==> done@[j2],
            decreases n - j,
        {
            if !done[j] {
                let ds = &self.deps[j];
                let m = ds.len();
                let mut k: usize = 0;
                while k < m
                    invariant
                        self.inv(),
                        j < n,
                        n == self.node_count(),
                        done@.len() == self.node_count(),
                        !done@[j as int],
                        m == self.deps_of(j as int).len(),
                        ds == &self.deps[j as int],
                        k <= m,
                        forall|k2: int| 0 <= k2 < k ==> self.deps_of(j as int)[k2] != x,
                    decreases m - k,
                {
                    if ds[k] == x {
                        proof {
                            assert(self.deps_of(j as int)[k as int] == x);
                            assert(self.deps_of(j as int).contains(x));
                        }
                        return false;
                    }
                    k = k + 1;
                }
                proof {
                    assert(!self.deps_of(j as int).contains(x));
                }
            }
            j = j + 1;
        }
        true
    }

    /// Below `upto`, every unmarked node has an unmarked dependent: no
    /// emission was possible so far in this pass.
    spec fn blocked_below(&self, done: Seq<bool>, upto: int) -> bool {
        forall|x: int|
            0 <= x < upto && !(#[trigger] done[x]) ==> exists|j: int|
                0 <= j < self.node_count() && (#[trigger] self.deps_of(j)).contains(x as usize)
                    && !done[j]
    }

    /// A reverse-topological order over the graph: each node stands
    /// before every one of its prerequisites, so rolling back in this
    /// order undoes dependents before what they depended on.  A node is
    /// left out only when it sits in a knot of left-out nodes that wait
    /// on one another — that is, on a dependency cycle.
    pub fn rollback_order(&self) -> (order: Vec<usize>)
        requires
            self.inv(),
        ensures
            order@.len() <= self.node_count(),
            forall|a: int| 0 <= a < order@.len() ==> (#[trigger] order@[a]) < self.node_count(),
            forall|a: int, b: int|
                #![trigger order@[a], order@[b]]
                0 <= a < order@.len() && 0 <= b < order@.len() && a != b ==> order@[a]
                    != order@[b],
            forall|a: int, b: int|
                #![trigger order@[a], order@[b]]
                0 <= a < order@.len() && 0 <= b < order@.len() && self.deps_of(
                    order@[a] as int,
                ).contains(order@[b]) ==> a < b,
            forall|x: usize|
                (x as int) < self.node_count() && !(#[trigger] order@.contains(x)) ==> exists|
                    j: usize,
                |
                    (j as int) < self.node_count() && !order@.contains(j) && (
                    #[trigger] self.deps_of(j as int)).contains(x),
    {
        let n = self.deps.len();
        let mut done: Vec<bool> = Vec::new();
        let mut j: usize = 0;
        while j < n
            invariant
                j <= n,
                done@.len() == j,
                forall|v: int| 0 <= v < j ==> (#[trigger] done@[v]) == false,
                count_marked(done@) == 0,
            decreases n - j,
        {
            let ghost old_done = done@;
            done.push(false);
            proof {
                assert(done@.drop_last() =~= old_done);
            }
            j = j + 1;
        }
        let mut order: Vec<usize> = Vec::new();
        let mut progressed = true;
        while progressed
            invariant
                self.inv(),
                n == self.node_count(),
                done@.len() == n,
                order@.len() == count_marked(done@),
                count_marked(done@) <= n,
                forall|a: int| 0 <= a < order@.len() ==> (#[trigger] order@[a]) < n,
                forall|a: int| 0 <= a < order@.len() ==> done@[(#[trigger] order@[a]) as int],
                forall|v: int|
                    0 <= v < n && (#[trigger] done@[v]) ==> exists|a: int|
                        0 <= a < order@.len() && order@[a] == v as usize,
                forall|a: int, b: int|
                    #![trigger order@[a], order@[b]]
                    0 <= a < order@.len() && 0 <= b < order@.len() && a != b ==> order@[a]
                        != order@[b],
                forall|px: int, j2: int|
                    0 <= px < order@.len() && 0 <= j2 < n && (#[trigger] self.deps_of(
                        j2,
                    )).contains(#[trigger] order@[px]) ==> exists|pj: int|
                        0 <= pj < px && order@[pj] == j2 as usize,
                !progressed ==> self.blocked_below(done@, n as int),
            decreases n - order@.len(), (if progressed { 1int } else { 0int }),
        {
            progressed = false;
            let ghost start_order = order@;
            let ghost start_done = done@;
            let mut x: usize = 0;
            while x < n
                invariant
                    self.inv(),
                    n == self.node_count(),
                    x <= n,
                    done@.len() == n,
                    order@.len() == count_marked(done@),
                    count_marked(done@) <= n,
                    forall|a: int| 0 <= a < order@.len() ==> (#[trigger] order@[a]) < n,
                    forall|a: int| 0 <= a < order@.len() ==> done@[(#[trigger] order@[a]) as int],
                    forall|v: int|
                        0 <= v < n && (#[trigger] done@[v]) ==> exists|a: int|
                            0 <= a < order@.len() && order@[a] == v as usize,
                    forall|a: int, b: int|
                        #![trigger order@[a], order@[b]]
                        0 <= a < order@.len() && 0 <= b < order@.len() && a != b ==> order@[a]
                            != order@[b],
                    forall|px: int, j2: int|
                        0 <= px < order@.len() && 0 <= j2 < n && (#[trigger] self.deps_of(
                            j2,
                        )).contains(#[trigger] order@[px]) ==> exists|pj: int|
                            0 <= pj < px && order@[pj] == j2 as usize,
                    !progressed ==> order@ == start_order && done@ == start_done
                        && self.blocked_below(done@, x as int),
                    progressed ==> order@.len() > start_order.len(),
                decreases n - x,
            {
                let ready = if !done[x] {
                    self.dependents_done(x, &done)
                } else {
                    false
                };
                if ready {
                    let ghost old_order = order@;
                    let ghost old_done = done@;
                    order.push(x);
                    done.set(x, true);
                    progressed = true;
                    proof {
                        lemma_count_marked_update(old_done, x as int);
                        assert forall|v: int|
                            0 <= v < n && (#[trigger] done@[v]) implies exists|a: int|
                            0 <= a < order@.len() && order@[a] == v as usize by {
                            if v == x as int {
                                assert(order@[order@.len() - 1] == v as usize);
                            } else {
                                assert(old_done[v]);
                                let a = choose|a: int|
                                    0 <= a < old_order.len() && old_order[a] == v as usize;
                                assert(order@[a] == v as usize);
                            }
                        }
                        assert forall|a: int, b: int|
                            #![trigger order@[a], order@[b]]
                            0 <= a < order@.len() && 0 <= b < order@.len() && a != b implies
                            order@[a] != order@[b] by {
                            if a == order@.len() - 1 {
                                if order@[b] == x {
                                    assert(old_done[old_order[b] as int]);
                                }
                            } else if b == order@.len() - 1 {
                                if order@[a] == x {
                                    assert(old_done[old_order[a] as int]);
                                }
                            }
                        }
                        assert forall|px: int, j2: int|
                            0 <= px < order@.len() && 0 <= j2 < n && (#[trigger] self.deps_of(
                                j2,
                            )).contains(#[trigger] order@[px]) implies exists|pj: int|
                            0 <= pj < px && order@[pj] == j2 as usize by {
                            if px < order@.len() - 1 {
                                assert(order@[px] == old_order[px]);
                                let pj = choose|pj: int|
                                    0 <= pj < px && old_order[pj] == j2 as usize;
                                assert(order@[pj] == j2 as usize);
                            } else {
                                assert(order@[px] == x);
                                assert(old_done[j2]);
                                let pj = choose|pj: int|
                                    0 <= pj < old_order.len() && old_order[pj] == j2 as usize;
                                assert(order@[pj] == j2 as usize);
                            }
                        }
                    }
                } else {
                    proof {
                        if !progressed {
                            assert forall|x2: int|
                                0 <= x2 < x + 1 && !(#[trigger] done@[x2]) implies exists|j2: int|
                                0 <= j2 < self.node_count() && (#[trigger] self.deps_of(
                                    j2,
                                )).contains(x2 as usize) && !done@[j2] by {
                                if x2 < x as int {
                                    assert(self.blocked_below(done@, x as int));
                                }
                            }
                        }
                    }
                }
                x = x + 1;
            }
            proof {
                lemma_count_marked_le(done@);
            }
        }
        proof {
            assert forall|a: int, b: int|
                #![trigger order@[a], order@[b]]
                0 <= a < order@.len() && 0 <= b < order@.len() && self.deps_of(
                    order@[a] as int,
                ).contains(order@[b]) implies a < b by {
                let pj = choose|pj: int| 0 <= pj < b && order@[pj] == order@[a] as usize;
                assert(order@[pj] == order@[a]);
                if pj != a {
                    assert(order@[pj] != order@[a]);
                }
            }
            assert forall|x: usize|
                (x as int) < self.node_count() && !(#[trigger] order@.contains(x)) implies exists|
                j: usize,
            |
                (j as int) < self.node_count() && !order@.contains(j) && (
                #[trigger] self.deps_of(j as int)).contains(x) by {
                assert(!done@[x as int]);
                assert(self.blocked_below(done@, n as int));
                let j2 = choose|j2: int|
                    0 <= j2 < self.node_count() && self.deps_of(j2).contains(x) && !done@[j2];
                assert(!order@.contains(j2 as usize)) by {
                    if order@.contains(j2 as usize) {
                        let a = choose|a: int|
                            0 <= a < order@.len() && order@[a] == j2 as usize;
                        assert(done@[(order@[a]) as int]);
                    }
                }
                assert(self.deps_of((j2 as usize) as int).contains(x));
            }
        }
        order
    }

    // ------------------------------------------------------------------
    // Transitions.
    // ------------------------------------------------------------------

    /// Pick up node `i` for probing.
    ///
    /// Two nodes with no path between them may both be picked up: taking
    /// one leaves every other startable node startable.
    pub fn begin_probe(&mut self, i: usize)
        requires
            old(self).inv(),
            old(self).spec_can_start(i as int),
        ensures
            final(self).inv(),
            same_graph(*old(self), *final(self)),
            final(self).statuses() == old(self).statuses().update(i as int, Status::Probing),
            final(self).log() == old(self).log(),
            final(self).outputs_model() == old(self).outputs_model(),
            final(self).failure() == old(self).failure(),
            count_pending(final(self).statuses()) == count_pending(old(self).statuses()) - 1,
            forall|j: int| old(self).spec_can_start(j) && j != i as int ==> final(self).spec_can_start(j),
    {
        let ghost pre = *self;
        self.status.set(i, Status::Probing);
        proof {
            let post = *self;
            assert(post.outputs_model() =~= pre.outputs_model());
            assert(post.deps_seq() =~= pre.deps_seq());
            lemma_count_pending_update(pre.status@, i as int, Status::Probing);
            assert forall|k: int| 0 <= k < pre.deps@[i as int]@.len() implies post.status@[(
            #[trigger] pre.deps@[i as int]@[k]) as int].is_settled() by {
                let d = pre.deps@[i as int]@[k];
                assert(pre.deps_of(i as int)[k] == d);
                assert(pre.status_of(d as int).is_settled());
                assert(d as int != i as int);
            }
            Self::lemma_update_active_deps(pre, post, i, Status::Probing);
            assert forall|j: int| 0 <= j < post.node_count() implies #[trigger] post.counts_ok_at(
                j,
            ) by {
                assert(pre.counts_ok_at(j));
            }
            Self::lemma_same_log_props(pre, post);
            assert forall|j: int|
                pre.spec_can_start(j) && j != i as int implies self.spec_can_start(j) by {
                assert forall|k: int| 0 <= k < self.deps_of(j).len() implies (
                #[trigger] self.status_of(self.deps_of(j)[k] as int)).is_settled() by {
                    let d = pre.deps_of(j)[k];
                    assert(pre.status_of(d as int).is_settled());
                    assert(d as int != i as int);
                }
            }
        }
    }

    /// Record the result of node `i`'s probe call.
    ///
    /// If an error surfaced elsewhere in the meantime the node is
    /// cancelled without a trace.  A failing probe surfaces its error; a
    /// probe reporting nothing to do settles the node as skipped without
    /// `Started`/`Finished` events; otherwise the node starts running and
    /// `Started` is logged.
    pub fn finish_probe(&mut self, i: usize, r: Result<Probe, ActionError>)
        requires
            old(self).inv(),
            i < old(self).node_count(),
            old(self).status_of(i as int) is Probing,
        ensures
            final(self).inv(),
            same_graph(*old(self), *final(self)),
            final(self).outputs_model() == old(self).outputs_model(),
            count_pending(final(self).statuses()) == count_pending(old(self).statuses()),
            old(self).failure() is Some ==> {
                &&& final(self).statuses() == old(self).statuses().update(i as int, Status::Cancelled)
                &&& final(self).log() == old(self).log()
                &&& final(self).failure() == old(self).failure()
            },
            old(self).failure() is None ==> match r {
                Result::Err(e) => {
                    &&& final(self).statuses() == old(self).statuses().update(i as int, Status::Failed)
                    &&& final(self).log() == old(self).log().push(ev(EventKind::Failed, i))
                    &&& final(self).failure() == Some(e)
                },
                Result::Ok(p) => {
                    if !p.needs_run {
                        &&& final(self).statuses() == old(self).statuses().update(
                            i as int,
                            Status::Skipped,
                        )
                        &&& final(self).log() == old(self).log().push(ev(EventKind::Skipped, i))
                        &&& final(self).failure() is None
                    } else {
                        &&& final(self).statuses() == old(self).statuses().update(
                            i as int,
                            Status::Running,
                        )
                        &&& final(self).log() == old(self).log().push(ev(EventKind::Started, i))
                        &&& final(self).failure() is None
                    }
                },
            },
    {
        let ghost pre = *self;
        if self.failure.is_some() {
            self.status.set(i, Status::Cancelled);
            proof {
                let post = *self;
                assert(post.outputs_model() =~= pre.outputs_model());
                assert(post.deps_seq() =~= pre.deps_seq());
                lemma_count_pending_update_stable(pre.status@, i as int, Status::Cancelled);
                Self::lemma_update_active_deps(pre, post, i, Status::Cancelled);
                Self::lemma_outputs_ok_update(pre, post, i);
                assert forall|j: int|
                    0 <= j < post.node_count() implies #[trigger] post.counts_ok_at(j) by {
                    assert(pre.counts_ok_at(j));
                }
                Self::lemma_same_log_props(pre, post);
            }
            return ;
        }
        match r {
            Result::Err(e) => {
                self.status.set(i, Status::Failed);
                self.log.push(Event { kind: EventKind::Failed, node: i });
                self.failure = Some(e);
                proof {
                    let post = *self;
                    let x = ev(EventKind::Failed, i);
                    assert(post.log@ == pre.log@.push(x));
                    assert(post.outputs_model() =~= pre.outputs_model());
                    assert(post.deps_seq() =~= pre.deps_seq());
                    lemma_count_pending_update_stable(pre.status@, i as int, Status::Failed);
                    Self::lemma_update_active_deps(pre, post, i, Status::Failed);
                    Self::lemma_outputs_ok_update(pre, post, i);
                    lemma_count_push(pre.log@, x, ev(EventKind::Started, i));
                    lemma_count_push(pre.log@, x, ev(EventKind::Finished, i));
                    lemma_count_push(pre.log@, x, ev(EventKind::Failed, i));
                    lemma_count_push(pre.log@, x, ev(EventKind::Skipped, i));
                    assert(pre.counts_ok_at(i as int));
                    assert(post.counts_ok_at(i as int));
                    Self::lemma_counts_updated(pre, post, i, x);
                    Self::lemma_push_other_dep_order(pre, post, x);
                    Self::lemma_push_other_nsaf(pre, post, x);
                    Self::lemma_push_log_nodes(pre, post, x);
                }
            },
            Result::Ok(p) => {
                if !p.needs_run {
                    self.status.set(i, Status::Skipped);
                    self.log.push(Event { kind: EventKind::Skipped, node: i });
                    proof {
                        let post = *self;
                        let x = ev(EventKind::Skipped, i);
                        assert(post.log@ == pre.log@.push(x));
                        assert(post.outputs_model() =~= pre.outputs_model());
                        assert(post.deps_seq() =~= pre.deps_seq());
                        lemma_count_pending_update_stable(pre.status@, i as int, Status::Skipped);
                        Self::lemma_update_active_deps(pre, post, i, Status::Skipped);
                        Self::lemma_outputs_ok_update(pre, post, i);
                        lemma_count_push(pre.log@, x, ev(EventKind::Started, i));
                        lemma_count_push(pre.log@, x, ev(EventKind::Finished, i));
                        lemma_count_push(pre.log@, x, ev(EventKind::Failed, i));
                        lemma_count_push(pre.log@, x, ev(EventKind::Skipped, i));
                        assert(pre.counts_ok_at(i as int));
                        assert(post.counts_ok_at(i as int));
                        Self::lemma_counts_updated(pre, post, i, x);
                        Self::lemma_push_other_dep_order(pre, post, x);
                        Self::lemma_push_other_nsaf(pre, post, x);
                        Self::lemma_push_log_nodes(pre, post, x);
                        Self::lemma_push_failed_only(pre, post, x);
                    }
                } else {
                    self.status.set(i, Status::Running);
                    self.log.push(Event { kind: EventKind::Started, node: i });
                    proof {
                        let post = *self;
                        let x = ev(EventKind::Started, i);
                        assert(post.log@ == pre.log@.push(x));
                        assert(post.outputs_model() =~= pre.outputs_model());
                        assert(post.deps_seq() =~= pre.deps_seq());
                        lemma_count_pending_update_stable(pre.status@, i as int, Status::Running);
                        assert forall|k: int|
                            0 <= k < pre.deps@[i as int]@.len() implies post.status@[(
                        #[trigger] pre.deps@[i as int]@[k]) as int].is_settled() by {
                            let d = pre.deps@[i as int]@[k];
                            assert(pre.status@[i as int].is_active());
                            assert(pre.status@[d as int].is_settled());
                            assert(d as int != i as int);
                        }
                        Self::lemma_update_active_deps(pre, post, i, Status::Running);
                        Self::lemma_outputs_ok_update(pre, post, i);
                        lemma_count_push(pre.log@, x, ev(EventKind::Started, i));
                        lemma_count_push(pre.log@, x, ev(EventKind::Finished, i));
                        lemma_count_push(pre.log@, x, ev(EventKind::Failed, i));
                        lemma_count_push(pre.log@, x, ev(EventKind::Skipped, i));
                        assert(pre.counts_ok_at(i as int));
                        assert(post.counts_ok_at(i as int));
                        Self::lemma_counts_updated(pre, post, i, x);
                        Self::lemma_push_started_dep_order(pre, post, i);
                        Self::lemma_push_started_nsaf(pre, post, i);
                        Self::lemma_push_log_nodes(pre, post, x);
                        Self::lemma_push_failed_only(pre, post, x);
                    }
                }
            },
        }
    }

    /// Record the result of node `i`'s `run(Perform)` call.
    ///
    /// Success logs `Finished` and publishes the output, if any; failure
    /// logs `Failed` and surfaces the error unless an earlier error
    /// already did.  A run in flight when an error surfaces elsewhere is
    /// not interrupted: its completion is recorded all the same.
    pub fn finish_run(&mut self, i: usize, r: Result<Option<ActionOutput>, ActionError>)
        requires
            old(self).inv(),
            i < old(self).node_count(),
            old(self).status_of(i as int) is Running,
        ensures
            final(self).inv(),
            same_graph(*old(self), *final(self)),
            count_pending(final(self).statuses()) == count_pending(old(self).statuses()),
            match r {
                Result::Err(e) => {
                    &&& final(self).statuses() == old(self).statuses().update(i as int, Status::Failed)
                    &&& final(self).log() == old(self).log().push(ev(EventKind::Failed, i))
                    &&& final(self).failure() == (if old(self).failure() is Some {
                        old(self).failure()
                    } else {
                        Some(e)
                    })
                    &&& final(self).outputs_model() == old(self).outputs_model()
                },
                Result::Ok(out) => {
                    &&& final(self).statuses() == old(self).statuses().update(i as int, Status::Done)
                    &&& final(self).log() == old(self).log().push(ev(EventKind::Finished, i))
                    &&& final(self).failure() == old(self).failure()
                    &&& final(self).outputs_model() == old(self).outputs_model().update(
                        i as int,
                        opt_output_model(out),
                    )
                },
            },
    {
        let ghost pre = *self;
        match r {
            Result::Err(e) => {
                self.status.set(i, Status::Failed);
                self.log.push(Event { kind: EventKind::Failed, node: i });
                if self.failure.is_none() {
                    self.failure = Some(e);
                }
                proof {
                    let post = *self;
                    let x = ev(EventKind::Failed, i);
                    assert(post.log@ == pre.log@.push(x));
                    assert(post.outputs_model() =~= pre.outputs_model());
                    assert(post.deps_seq() =~= pre.deps_seq());
                    lemma_count_pending_update_stable(pre.status@, i as int, Status::Failed);
                    Self::lemma_update_active_deps(pre, post, i, Status::Failed);
                    Self::lemma_outputs_ok_update(pre, post, i);
                    lemma_count_push(pre.log@, x, ev(EventKind::Started, i));
                    lemma_count_push(pre.log@, x, ev(EventKind::Finished, i));
                    lemma_count_push(pre.log@, x, ev(EventKind::Failed, i));
                    lemma_count_push(pre.log@, x, ev(EventKind::Skipped, i));
                    assert(pre.counts_ok_at(i as int));
                    assert(post.counts_ok_at(i as int));
                    Self::lemma_counts_updated(pre, post, i, x);
                    Self::lemma_push_other_dep_order(pre, post, x);
                    Self::lemma_push_other_nsaf(pre, post, x);
                    Self::lemma_push_log_nodes(pre, post, x);
                }
            },
            Result::Ok(out) => {
                self.status.set(i, Status::Done);
                self.log.push(Event { kind: EventKind::Finished, node: i });
                let ghost out_model = opt_output_model(out);
                match out {
                    Some(v) => self.outputs.set(i, Some(v)),
                    None => self.outputs.set(i, None),
                }
                proof {
                    let post = *self;
                    let x = ev(EventKind::Finished, i);
                    assert(post.log@ == pre.log@.push(x));
                    assert(post.outputs_model() =~= pre.outputs_model().update(
                        i as int,
                        out_model,
                    ));
                    assert(post.deps_seq() =~= pre.deps_seq());
                    lemma_count_pending_update_stable(pre.status@, i as int, Status::Done);
                    Self::lemma_update_active_deps(pre, post, i, Status::Done);
                    assert forall|j: int|
                        0 <= j < post.node_count() && (#[trigger] post.outputs@[j]) is Some
                        implies post.status@[j] is Done by {
                        if j != i as int {
                            assert(pre.outputs@[j] is Some);
                        }
                    }
                    lemma_count_push(pre.log@, x, ev(EventKind::Started, i));
                    lemma_count_push(pre.log@, x, ev(EventKind::Finished, i));
                    lemma_count_push(pre.log@, x, ev(EventKind::Failed, i));
                    lemma_count_push(pre.log@, x, ev(EventKind::Skipped, i));
                    assert(pre.counts_ok_at(i as int));
                    assert(post.counts_ok_at(i as int));
                    Self::lemma_counts_updated(pre, post, i, x);
                    Self::lemma_push_other_dep_order(pre, post, x);
                    Self::lemma_push_other_nsaf(pre, post, x);
                    Self::lemma_push_log_nodes(pre, post, x);
                    if pre.failure is None {
                        Self::lemma_push_failed_only(pre, post, x);
                    }
                }
            },
        }
    }

    /// Log that node `i`'s `run(Rollback)` began.
    pub fn log_rollback_started(&mut self, i: usize)
        requires
            old(self).inv(),
            i < old(self).node_count(),
        ensures
            final(self).inv(),
            same_graph(*old(self), *final(self)),
            final(self).statuses() == old(self).statuses(),
            final(self).outputs_model() == old(self).outputs_model(),
            final(self).failure() == old(self).failure(),
            final(self).log() == old(self).log().push(ev(EventKind::RollbackStarted, i)),
    {
        self.push_rollback_event(Event { kind: EventKind::RollbackStarted, node: i });
    }

    /// Log that node `i`'s `run(Rollback)` returned successfully.
    pub fn log_rollback_finished(&mut self, i: usize)
        requires
            old(self).inv(),
            i < old(self).node_count(),
        ensures
            final(self).inv(),
            same_graph(*old(self), *final(self)),
            final(self).statuses() == old(self).statuses(),
            final(self).outputs_model() == old(self).outputs_model(),
            final(self).failure() == old(self).failure(),
            final(self).log() == old(self).log().push(ev(EventKind::RollbackFinished, i)),
    {
        self.push_rollback_event(Event { kind: EventKind::RollbackFinished, node: i });
    }

    /// Log that node `i`'s `run(Rollback)` returned an error.
    pub fn log_rollback_failed(&mut self, i: usize)
        requires
            old(self).inv(),
            i < old(self).node_count(),
        ensures
            final(self).inv(),
            same_graph(*old(self), *final(self)),
            final(self).statuses() == old(self).statuses(),
            final(self).outputs_model() == old(self).outputs_model(),
            final(self).failure() == old(self).failure(),
            final(self).log() == old(self).log().push(ev(EventKind::RollbackFailed, i)),
    {
        self.push_rollback_event(Event { kind: EventKind::RollbackFailed, node: i });
    }

    /// Append a rollback-phase event; statuses, outputs and the surfaced
    /// error stay as the perform phase left them.
    fn push_rollback_event(&mut self, x: Event)
        requires
            old(self).inv(),
            x.node < old(self).node_count(),
            x.kind is RollbackStarted || x.kind is RollbackFinished || x.kind is RollbackFailed,
        ensures
            final(self).inv(),
            same_graph(*old(self), *final(self)),
            final(self).statuses() == old(self).statuses(),
            final(self).outputs_model() == old(self).outputs_model(),
            final(self).failure() == old(self).failure(),
            final(self).log() == old(self).log().push(x),
    {
        let ghost pre = *self;
        self.log.push(x);
        proof {
            let post = *self;
            assert(post.log@ == pre.log@.push(x));
            assert(post.outputs_model() =~= pre.outputs_model());
            assert(post.deps_seq() =~= pre.deps_seq());
            assert forall|j: int|
                0 <= j < post.node_count() implies #[trigger] post.counts_ok_at(j) by {
                assert(pre.counts_ok_at(j));
                Self::lemma_counts_after_push(pre.log@, x);
            }
            Self::lemma_push_other_dep_order(pre, post, x);
            Self::lemma_push_other_nsaf(pre, post, x);
            Self::lemma_push_log_nodes(pre, post, x);
            if pre.failure is None {
                Self::lemma_push_failed_only(pre, post, x);
            }
        }
    }

    // ------------------------------------------------------------------
    // Laws: what holds in every reachable state.
    // ------------------------------------------------------------------

    /// Every per-node table of the scheduler has one slot per node.
    pub proof fn lemma_lens(&self)
        requires
            self.inv(),
        ensures
            self.outputs_model().len() == self.node_count(),
            self.statuses().len() == self.node_count(),
            self.deps_seq().len() == self.node_count(),
    {
    }

    /// Single run: `run(Perform)` begins at most once on any node, over
    /// the whole life of the workflow.
    pub proof fn lemma_single_run(&self, i: usize)
        requires
            self.inv(),
            (i as int) < self.node_count(),
        ensures
            count_events(self.log(), ev(EventKind::Started, i)) <= 1,
    {
        assert(self.counts_ok_at(i as int));
    }

    /// Skip respects the probe: a node whose probe reported nothing to do
    /// is never run and leaves no `Started`, `Finished` or `Failed` event.
    pub proof fn lemma_skip_suppresses_events(&self, i: usize)
        requires
            self.inv(),
            (i as int) < self.node_count(),
            self.status_of(i as int) is Skipped,
        ensures
            count_events(self.log(), ev(EventKind::Started, i)) == 0,
            count_events(self.log(), ev(EventKind::Finished, i)) == 0,
            count_events(self.log(), ev(EventKind::Failed, i)) == 0,
    {
        assert(self.counts_ok_at(i as int));
    }

    /// Dependency order: when a node starts, each of its prerequisites
    /// has finished or been skipped at an earlier position of the log.
    pub proof fn lemma_dependency_order(&self, i: usize, k: int, p: int)
        requires
            self.inv(),
            (i as int) < self.node_count(),
            0 <= k < self.deps_of(i as int).len(),
            0 <= p < self.log().len(),
            self.log()[p] == ev(EventKind::Started, i),
        ensures
            exists|q: int|
                0 <= q < p && settles(#[trigger] self.log()[q], self.deps_of(i as int)[k]),
    {
        let d = self.deps@[i as int]@[k];
        assert(self.deps_of(i as int)[k] == d);
        assert(self.log@[p] == ev(EventKind::Started, i));
        assert(settled_before(self.log@, p, d));
        lemma_settled_before(self.log@, p, d);
    }

    /// Error short-circuit: once a failure stands in the log, no node
    /// starts at any later position.
    pub proof fn lemma_no_start_after_failure(&self, p: int, q: int)
        requires
            self.inv(),
            0 <= p < q < self.log().len(),
            self.log()[p].kind is Failed,
        ensures
            !(self.log()[q].kind is Started),
    {
        assert(self.log@[p].kind is Failed);
        assert(self.log@[q] == self.log()[q]);
    }

    /// A failure in the log means an error has surfaced.
    pub proof fn lemma_failed_means_failure(&self, p: int)
        requires
            self.inv(),
            0 <= p < self.log().len(),
            self.log()[p].kind is Failed,
        ensures
            self.failure() is Some,
    {
        if self.failure is None {
            assert(!((self.log@[p]).kind is Failed));
        }
    }

    /// Output visibility: while a node is being probed or run, each of
    /// its prerequisites stays settled, so the outputs it reads are the
    /// final ones.
    pub proof fn lemma_prerequisites_settled(&self, i: usize, k: int)
        requires
            self.inv(),
            (i as int) < self.node_count(),
            self.status_of(i as int).is_active(),
            0 <= k < self.deps_of(i as int).len(),
        ensures
            self.status_of(self.deps_of(i as int)[k] as int).is_settled(),
    {
        let d = self.deps@[i as int]@[k];
        assert(self.deps_of(i as int)[k] == d);
        assert(self.status@[d as int].is_settled());
    }

    /// An output slot is filled only once its node's run completed; the
    /// node being settled, no transition will touch the slot again.
    pub proof fn lemma_output_only_when_done(&self, i: usize)
        requires
            self.inv(),
            (i as int) < self.node_count(),
            self.output_of(i as int) is Some,
        ensures
            self.status_of(i as int) is Done,
    {
        assert(self.outputs@[i as int] is Some);
    }

    // ------------------------------------------------------------------
    // Invariant-preservation helpers.
    // ------------------------------------------------------------------

    /// After a status update and one pushed event for the same node, the
    /// log still agrees with every status.
    proof fn lemma_counts_updated(pre: Scheduler, post: Scheduler, i: usize, x: Event)
        requires
            pre.wf(),
            pre.counts_ok(),
            i < pre.node_count(),
            x.node == i,
            post.log@ == pre.log@.push(x),
            post.status@ == pre.status@.update(i as int, post.status@[i as int]),
            post.node_count() == pre.node_count(),
            post.counts_ok_at(i as int),
        ensures
            forall|j: int|
                0 <= j < post.node_count() && j != i as int ==> #[trigger] post.counts_ok_at(j),
    {
        assert(vstd::std_specs::vec::spec_vec_len(&pre.status) == pre.status@.len());
        Self::lemma_counts_after_push(pre.log@, x);
        assert forall|j: int|
            0 <= j < post.node_count() && j != i as int implies #[trigger] post.counts_ok_at(
            j,
        ) by {
            assert(pre.counts_ok_at(j));
            assert(x != ev(EventKind::Started, j as usize));
            assert(x != ev(EventKind::Finished, j as usize));
            assert(x != ev(EventKind::Failed, j as usize));
            assert(x != ev(EventKind::Skipped, j as usize));
            assert(post.status@[j] == pre.status@[j]);
        }
    }

    /// Moving a node out of an unfinished status cannot break the rule
    /// that outputs belong to completed runs.
    proof fn lemma_outputs_ok_update(pre: Scheduler, post: Scheduler, i: usize)
        requires
            pre.wf(),
            pre.outputs_ok(),
            i < pre.node_count(),
            !(pre.status@[i as int] is Done),
            post.outputs@ == pre.outputs@,
            post.status@ == pre.status@.update(i as int, post.status@[i as int]),
            post.node_count() == pre.node_count(),
        ensures
            post.outputs_ok(),
    {
        assert forall|j: int|
            0 <= j < post.node_count() && (#[trigger] post.outputs@[j]) is Some implies
            post.status@[j] is Done by {
            assert(pre.outputs@[j] is Some);
            assert(pre.status@[j] is Done);
        }
    }

    /// With an unchanged log, the log-only invariant clauses carry over.
    proof fn lemma_same_log_props(pre: Scheduler, post: Scheduler)
        requires
            pre.dep_order_ok(),
            pre.no_started_after_failed(),
            pre.failed_only_with_failure(),
            pre.log_nodes_ok(),
            post.deps@ == pre.deps@,
            post.log@ == pre.log@,
            post.failure is None ==> pre.failure is None,
        ensures
            post.dep_order_ok(),
            post.no_started_after_failed(),
            post.failed_only_with_failure(),
            post.log_nodes_ok(),
    {
        assert forall|i: int, k: int, p: int|
            #![trigger post.deps@[i]@[k], post.log@[p]]
            0 <= i < post.node_count() && 0 <= k < post.deps@[i]@.len() && 0 <= p
                < post.log@.len() && post.log@[p] == ev(EventKind::Started, i as usize) implies
            settled_before(post.log@, p, post.deps@[i]@[k]) by {
            assert(pre.log@[p] == post.log@[p]);
            assert(settled_before(pre.log@, p, pre.deps@[i]@[k]));
        }
        assert forall|p: int, q: int|
            #![trigger post.log@[p], post.log@[q]]
            0 <= p < q < post.log@.len() && post.log@[p].kind is Failed implies !(
            post.log@[q].kind is Started) by {
            assert(pre.log@[p] == post.log@[p]);
            assert(pre.log@[q] == post.log@[q]);
        }
        if post.failure is None {
            assert forall|p: int| 0 <= p < post.log@.len() implies !((
            #[trigger] post.log@[p]).kind is Failed) by {
                assert(pre.log@[p] == post.log@[p]);
            }
        }
        assert forall|p: int|
            0 <= p < post.log@.len() implies (#[trigger] post.log@[p]).node
                < post.node_count() by {
            assert(pre.log@[p] == post.log@[p]);
        }
    }

    /// A pushed event about a graph node keeps every log entry within the
    /// graph.
    proof fn lemma_push_log_nodes(pre: Scheduler, post: Scheduler, x: Event)
        requires
            pre.log_nodes_ok(),
            post.deps@ == pre.deps@,
            post.log@ == pre.log@.push(x),
            (x.node as int) < post.node_count(),
        ensures
            post.log_nodes_ok(),
    {
        assert forall|p: int|
            0 <= p < post.log@.len() implies (#[trigger] post.log@[p]).node
                < post.node_count() by {
            if p < pre.log@.len() {
                assert(post.log@[p] == pre.log@[p]);
            } else {
                assert(post.log@[p] == x);
            }
        }
    }

    /// While no failure has surfaced, appending a non-failure event keeps
    /// the log free of `Failed` entries.
    proof fn lemma_push_failed_only(pre: Scheduler, post: Scheduler, x: Event)
        requires
            pre.failed_only_with_failure(),
            pre.failure is None,
            !(x.kind is Failed),
            post.log@ == pre.log@.push(x),
        ensures
            post.failed_only_with_failure(),
    {
        if post.failure is None {
            assert forall|p: int| 0 <= p < post.log@.len() implies !((
            #[trigger] post.log@[p]).kind is Failed) by {
                if p < pre.log@.len() {
                    assert(post.log@[p] == pre.log@[p]);
                } else {
                    assert(post.log@[p] == x);
                }
            }
        }
    }

    /// Appending one event changes every occurrence count by the expected
    /// amount.
    proof fn lemma_counts_after_push(log: Seq<Event>, x: Event)
        ensures
            forall|e: Event|
                #[trigger] count_events(log.push(x), e) == count_events(log, e) + if x == e {
                    1int
                } else {
                    0int
                },
    {
        assert forall|e: Event|
            #[trigger] count_events(log.push(x), e) == count_events(log, e) + if x == e {
                1int
            } else {
                0int
            } by {
            lemma_count_push(log, x, e);
        }
    }

    /// Appending an event that is not `Started` keeps the dependency
    /// ordering of the log.
    proof fn lemma_push_other_dep_order(pre: Scheduler, post: Scheduler, x: Event)
        requires
            pre.dep_order_ok(),
            post.deps@ == pre.deps@,
            post.log@ == pre.log@.push(x),
            !(x.kind is Started),
        ensures
            post.dep_order_ok(),
    {
        assert forall|i: int, k: int, p: int|
            #![trigger post.deps@[i]@[k], post.log@[p]]
            0 <= i < post.node_count() && 0 <= k < post.deps@[i]@.len() && 0 <= p
                < post.log@.len() && post.log@[p] == ev(EventKind::Started, i as usize) implies
            settled_before(post.log@, p, post.deps@[i]@[k]) by {
            if p < pre.log@.len() {
                assert(post.log@[p] == pre.log@[p]);
                assert(0 <= k < pre.deps@[i]@.len());
                let d = pre.deps@[i]@[k];
                assert(settled_before(pre.log@, p, d));
                lemma_take_push(pre.log@, x, p);
            } else {
                assert(post.log@[p] == x);
            }
        }
    }

    /// Appending `Started` for a node whose prerequisites have all
    /// finished or been skipped keeps the dependency ordering.
    proof fn lemma_push_started_dep_order(pre: Scheduler, post: Scheduler, i: usize)
        requires
            pre.inv(),
            i < pre.node_count(),
            pre.status@[i as int] is Probing,
            post.deps@ == pre.deps@,
            post.log@ == pre.log@.push(ev(EventKind::Started, i)),
        ensures
            post.dep_order_ok(),
    {
        assert forall|i2: int, k: int, p: int|
            #![trigger post.deps@[i2]@[k], post.log@[p]]
            0 <= i2 < post.node_count() && 0 <= k < post.deps@[i2]@.len() && 0 <= p
                < post.log@.len() && post.log@[p] == ev(EventKind::Started, i2 as usize) implies
            settled_before(post.log@, p, post.deps@[i2]@[k]) by {
            if p < pre.log@.len() {
                assert(post.log@[p] == pre.log@[p]);
                assert(0 <= k < pre.deps@[i2]@.len());
                let d = pre.deps@[i2]@[k];
                assert(settled_before(pre.log@, p, d));
                lemma_take_push(pre.log@, ev(EventKind::Started, i), p);
            } else {
                assert(post.log@[p] == ev(EventKind::Started, i));
                assert(vstd::std_specs::vec::spec_vec_len(&pre.deps) == pre.deps@.len());
                assert(i2 == i as int);
                let d = pre.deps@[i2]@[k];
                assert(pre.status@[i as int].is_active());
                assert(pre.status@[d as int].is_settled());
                assert(pre.counts_ok_at(d as int));
                assert(post.log@.take(p) =~= pre.log@);
                if pre.status@[d as int] is Skipped {
                    lemma_last_pos_of_count(pre.log@, ev(EventKind::Skipped, d));
                } else {
                    lemma_last_pos_of_count(pre.log@, ev(EventKind::Finished, d));
                }
            }
        }
    }

    /// Appending an event that is not `Started` cannot put a start after
    /// a failure.
    proof fn lemma_push_other_nsaf(pre: Scheduler, post: Scheduler, x: Event)
        requires
            pre.no_started_after_failed(),
            post.log@ == pre.log@.push(x),
            !(x.kind is Started),
        ensures
            post.no_started_after_failed(),
    {
        assert forall|p: int, q: int|
            #![trigger post.log@[p], post.log@[q]]
            0 <= p < q < post.log@.len() && post.log@[p].kind is Failed implies !(
            post.log@[q].kind is Started) by {
            if q < pre.log@.len() {
                assert(post.log@[p] == pre.log@[p]);
                assert(post.log@[q] == pre.log@[q]);
            } else {
                assert(post.log@[q] == x);
            }
        }
    }

    /// While no failure has surfaced, appending `Started` keeps the log
    /// free of starts after failures.
    proof fn lemma_push_started_nsaf(pre: Scheduler, post: Scheduler, i: usize)
        requires
            pre.no_started_after_failed(),
            pre.failed_only_with_failure(),
            pre.failure is None,
            post.log@ == pre.log@.push(ev(EventKind::Started, i)),
        ensures
            post.no_started_after_failed(),
    {
        assert forall|p: int, q: int|
            #![trigger post.log@[p], post.log@[q]]
            0 <= p < q < post.log@.len() && post.log@[p].kind is Failed implies !(
            post.log@[q].kind is Started) by {
            assert(post.log@[p] == pre.log@[p]);
            assert(!(pre.log@[p].kind is Failed));
        }
    }

    /// Updating one node's status preserves the rule that active nodes
    /// have settled prerequisites.
    proof fn lemma_update_active_deps(pre: Scheduler, post: Scheduler, i: usize, s_new: Status)
        requires
            pre.wf(),
            pre.active_deps_settled(),
            i < pre.node_count(),
            post.deps@ == pre.deps@,
            post.status@ == pre.status@.update(i as int, s_new),
            s_new.is_active() ==> forall|k: int|
                0 <= k < pre.deps@[i as int]@.len() ==> post.status@[(
                #[trigger] pre.deps@[i as int]@[k]) as int].is_settled(),
            pre.status@[i as int].is_settled() ==> s_new.is_settled(),
        ensures
            post.active_deps_settled(),
    {
        assert forall|j: int, k: int|
            0 <= j < post.node_count() && post.status@[j].is_active() && 0 <= k
                < post.deps@[j]@.len() implies post.status@[(#[trigger] post.deps@[j]@[k]) as int].is_settled() by {
            let d = pre.deps@[j]@[k];
            if j == i as int {
                assert(s_new.is_active());
            } else {
                assert(pre.status@[j].is_active());
                assert(pre.status@[d as int].is_settled());
                if d as int == i as int {
                    assert(s_new.is_settled());
                }
            }
        }
    }
}

} // verus!
