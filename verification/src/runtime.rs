//! The runtime: a frozen workflow graph and its execution engine.

use vstd::prelude::*;

use crate::action::{Action, Node};
use crate::error::ActionError;
use crate::event::{
    count_events, ev, is_prefix, lemma_count_nonneg, lemma_prefix_push, lemma_prefix_refl,
    lemma_prefix_trans, lemma_skip_push, rollback_starts, Event, EventKind,
};
use crate::id::Id;
use crate::output::{opt_output_model, ActionOutput, OutputModel};
use crate::registry::{lookup, Registry};
use crate::scheduler::{count_pending, lemma_count_pending_nonneg, same_graph, Scheduler, Status};
use crate::scope::Scope;
use crate::{Operation, Probe};

use std::io::Write;

verus! {

/// The position of the first node with identifier `id`, or `-1` if no
/// node carries it.
pub open spec fn id_index(ids: Seq<Id>, id: Id) -> int
    decreases ids.len(),
{
    if ids.len() == 0 {
        -1
    } else if ids[0] == id {
        0
    } else {
        let t = id_index(ids.drop_first(), id);
        if t == -1 {
            -1
        } else {
            t + 1
        }
    }
}

/// `id_index` either reports no occurrence or points at the first one.
pub proof fn lemma_id_index(ids: Seq<Id>, id: Id)
    ensures
        id_index(ids, id) == -1 || (0 <= id_index(ids, id) < ids.len() && ids[id_index(ids, id)]
            == id),
    decreases ids.len(),
{
    if ids.len() > 0 && !(ids[0] == id) {
        lemma_id_index(ids.drop_first(), id);
    }
}

/// A match at `j` with no earlier match pins `id_index` down.
pub proof fn lemma_id_index_first_match(ids: Seq<Id>, id: Id, j: int)
    requires
        0 <= j < ids.len(),
        ids[j] == id,
        forall|j2: int| 0 <= j2 < j ==> ids[j2] != id,
    ensures
        id_index(ids, id) == j,
    decreases j,
{
    if j == 0 {
    } else {
        assert(ids[0] != id);
        assert(ids.drop_first()[j - 1] == id);
        assert forall|j2: int| 0 <= j2 < j - 1 implies ids.drop_first()[j2] != id by {
            assert(ids.drop_first()[j2] == ids[j2 + 1]);
        }
        lemma_id_index_first_match(ids.drop_first(), id, j - 1);
    }
}

/// No match anywhere means `id_index` reports none.
pub proof fn lemma_id_index_no_match(ids: Seq<Id>, id: Id)
    requires
        forall|j: int| 0 <= j < ids.len() ==> ids[j] != id,
    ensures
        id_index(ids, id) == -1,
    decreases ids.len(),
{
    if ids.len() > 0 {
        assert forall|j: int| 0 <= j < ids.drop_first().len() implies ids.drop_first()[j]
            != id by {
            assert(ids.drop_first()[j] == ids[j + 1]);
        }
        lemma_id_index_no_match(ids.drop_first(), id);
    }
}

/// The prerequisite identifiers of a node, resolved to graph positions;
/// identifiers that name no node of the graph are dropped.
pub open spec fn resolve_dep_ids(dep_ids: Seq<Id>, ids: Seq<Id>) -> Seq<usize>
    decreases dep_ids.len(),
{
    if dep_ids.len() == 0 {
        Seq::empty()
    } else {
        let rest = resolve_dep_ids(dep_ids.drop_last(), ids);
        let t = id_index(ids, dep_ids.last());
        if t == -1 {
            rest
        } else {
            rest.push(t as usize)
        }
    }
}

/// Every resolved position lies inside the graph.
pub proof fn lemma_resolve_bounds(dep_ids: Seq<Id>, ids: Seq<Id>)
    ensures
        forall|k: int|
            0 <= k < resolve_dep_ids(dep_ids, ids).len() ==> (#[trigger] resolve_dep_ids(
                dep_ids,
                ids,
            )[k]) < ids.len(),
    decreases dep_ids.len(),
{
    if dep_ids.len() > 0 {
        lemma_resolve_bounds(dep_ids.drop_last(), ids);
        lemma_id_index(ids, dep_ids.last());
        let rest = resolve_dep_ids(dep_ids.drop_last(), ids);
        let t = id_index(ids, dep_ids.last());
        assert forall|k: int|
            0 <= k < resolve_dep_ids(dep_ids, ids).len() implies (#[trigger] resolve_dep_ids(
            dep_ids,
            ids,
        )[k]) < ids.len() by {
            if t == -1 {
                assert(resolve_dep_ids(dep_ids, ids)[k] == rest[k]);
            } else if k < rest.len() {
                assert(resolve_dep_ids(dep_ids, ids)[k] == rest[k]);
            } else {
                assert(resolve_dep_ids(dep_ids, ids)[k] == t as usize);
            }
        }
    }
}

/// The lifecycle events that observers see: starts, finishes and
/// failures of nodes whose display name is not empty.
pub open spec fn is_hook(e: Event, names: Seq<String>) -> bool {
    &&& (e.kind is Started || e.kind is Finished || e.kind is Failed)
    &&& (e.node as int) < names.len()
    &&& names[e.node as int]@.len() > 0
}

/// The observer's view of a lifecycle log: hook events, in log order.
pub open spec fn hook_view(log: Seq<Event>, names: Seq<String>) -> Seq<Event>
    decreases log.len(),
{
    if log.len() == 0 {
        Seq::empty()
    } else {
        let rest = hook_view(log.drop_last(), names);
        if is_hook(log.last(), names) {
            rest.push(log.last())
        } else {
            rest
        }
    }
}

/// A node without `Started`, `Finished` or `Failed` events contributes
/// nothing to the observer's view.
pub proof fn lemma_no_events_no_hooks(log: Seq<Event>, names: Seq<String>, i: usize)
    requires
        count_events(log, ev(EventKind::Started, i)) == 0,
        count_events(log, ev(EventKind::Finished, i)) == 0,
        count_events(log, ev(EventKind::Failed, i)) == 0,
    ensures
        forall|p: int|
            0 <= p < hook_view(log, names).len() ==> (#[trigger] hook_view(log, names)[p]).node
                != i,
    decreases log.len(),
{
    if log.len() > 0 {
        lemma_count_nonneg(log.drop_last(), ev(EventKind::Started, i));
        lemma_count_nonneg(log.drop_last(), ev(EventKind::Finished, i));
        lemma_count_nonneg(log.drop_last(), ev(EventKind::Failed, i));
        lemma_no_events_no_hooks(log.drop_last(), names, i);
        let rest = hook_view(log.drop_last(), names);
        if is_hook(log.last(), names) {
            assert(log.last() != ev(EventKind::Started, i));
            assert(log.last() != ev(EventKind::Finished, i));
            assert(log.last() != ev(EventKind::Failed, i));
            assert forall|p: int|
                0 <= p < hook_view(log, names).len() implies (#[trigger] hook_view(
                log,
                names,
            )[p]).node != i by {
                if p < rest.len() {
                    assert(hook_view(log, names)[p] == rest[p]);
                } else {
                    assert(hook_view(log, names)[p] == log.last());
                }
            }
        }
    }
}

/// Relies on `std::io::Stderr`: writes one line of text to standard
/// error.  Nothing is assumed about the write.
#[verifier::external_body]
fn write_error_line(s: &str) {
    let _ = writeln!(std::io::stderr(), "{}", s);
}

/// The read handle an action receives while probing or running: the
/// published outputs and the state registry, with identifier lookup.
pub struct RuntimeHandle {
    ids: Vec<Id>,
    outputs: Vec<Option<ActionOutput>>,
    registry: Registry,
}

impl RuntimeHandle {
    /// A handle over the given identifiers, output snapshot and
    /// registry, for drivers that schedule the graph themselves.
    pub fn new(ids: Vec<Id>, outputs: Vec<Option<ActionOutput>>, registry: Registry) -> (r:
        RuntimeHandle)
        ensures
            r.spec_ids() == ids@,
            r.outputs_model() == Seq::new(
                outputs@.len() as nat,
                |i: int| opt_output_model(outputs@[i]),
            ),
            r.state_entries() == registry.state_entries(),
            r.variable_entries() == registry.variable_entries(),
    {
        RuntimeHandle { ids, outputs, registry }
    }

    /// The node identifiers of the graph, in graph order.
    pub closed spec fn spec_ids(&self) -> Seq<Id> {
        self.ids@
    }

    /// The published outputs, one slot per node.
    pub closed spec fn outputs_model(&self) -> Seq<Option<OutputModel>> {
        Seq::new(self.outputs@.len() as nat, |i: int| opt_output_model(self.outputs@[i]))
    }

    /// The registrations of the type-tagged store.
    pub closed spec fn state_entries(&self) -> Seq<(String, ActionOutput)> {
        self.registry.state_entries()
    }

    /// The registrations of the named store.
    pub closed spec fn variable_entries(&self) -> Seq<(String, ActionOutput)> {
        self.registry.variable_entries()
    }

    /// One output slot per node.
    pub open spec fn wf(&self) -> bool {
        self.outputs_model().len() == self.spec_ids().len()
    }

    /// What `get_output` returns: the output slot of the first node with
    /// the given identifier.
    pub open spec fn spec_get_output(&self, id: Id) -> Option<OutputModel> {
        let t = id_index(self.spec_ids(), id);
        if t == -1 {
            None
        } else {
            self.outputs_model()[t]
        }
    }

    /// The output of the node with identifier `node`, if that node exists
    /// and has published one.
    pub fn get_output(&self, node: Id) -> (r: Option<ActionOutput>)
        requires
            self.wf(),
        ensures
            opt_output_model(r) == self.spec_get_output(node),
    {
        match find_id(&self.ids, node) {
            Some(t) => {
                match &self.outputs[t] {
                    Some(v) => Some(v.clone()),
                    None => None,
                }
            },
            None => None,
        }
    }

    /// The state value registered under the type tag `tag`, if any.
    pub fn get_state(&self, tag: &String) -> (r: Option<ActionOutput>)
        ensures
            opt_output_model(r) == lookup(self.state_entries(), tag@),
    {
        self.registry.get_state(tag)
    }

    /// The value registered under `name`, if any.
    pub fn get_variable(&self, name: &String) -> (r: Option<ActionOutput>)
        ensures
            opt_output_model(r) == lookup(self.variable_entries(), name@),
    {
        self.registry.get_variable(name)
    }
}

/// The position of the first node with identifier `id`, if any.
fn find_id(ids: &Vec<Id>, id: Id) -> (r: Option<usize>)
    ensures
        match r {
            Some(t) => id_index(ids@, id) == t as int && (t as int) < ids@.len(),
            None => id_index(ids@, id) == -1,
        },
{
    let n = ids.len();
    let mut j: usize = 0;
    while j < n
        invariant
            j <= n,
            n == ids@.len(),
            forall|j2: int| 0 <= j2 < j ==> ids@[j2] != id,
        decreases n - j,
    {
        if ids[j] == id {
            proof {
                lemma_id_index_first_match(ids@, id, j as int);
            }
            return Some(j);
        }
        j = j + 1;
    }
    proof {
        lemma_id_index_no_match(ids@, id);
    }
    None
}

/// Copy a vector of identifiers.
fn clone_ids(ids: &Vec<Id>) -> (r: Vec<Id>)
    ensures
        r@ == ids@,
{
    let mut r: Vec<Id> = Vec::new();
    let n = ids.len();
    let mut j: usize = 0;
    while j < n
        invariant
            j <= n,
            n == ids@.len(),
            r@ == ids@.take(j as int),
        decreases n - j,
    {
        r.push(ids[j]);
        proof {
            assert(r@ =~= ids@.take(j + 1 as int));
        }
        j = j + 1;
    }
    proof {
        assert(r@ =~= ids@);
    }
    r
}

/// A frozen workflow: the scheduling state, the actions, and everything
/// the actions may read.
pub struct Runtime<A> {
    sched: Scheduler,
    actions: Vec<A>,
    names: Vec<String>,
    ids: Vec<Id>,
    registry: Registry,
}

impl<A: Action> Runtime<A> {
    /// The scheduling state of the workflow.
    pub closed spec fn sched(&self) -> Scheduler {
        self.sched
    }

    /// The node identifiers, in graph order.
    pub closed spec fn spec_ids(&self) -> Seq<Id> {
        self.ids@
    }

    /// The cached display names, in graph order.
    pub closed spec fn spec_names(&self) -> Seq<String> {
        self.names@
    }

    /// The actions, in graph order.
    pub closed spec fn spec_actions(&self) -> Seq<A> {
        self.actions@
    }

    /// The registrations of the type-tagged store.
    pub closed spec fn state_entries(&self) -> Seq<(String, ActionOutput)> {
        self.registry.state_entries()
    }

    /// The registrations of the named store.
    pub closed spec fn variable_entries(&self) -> Seq<(String, ActionOutput)> {
        self.registry.variable_entries()
    }

    /// The runtime is consistent: the scheduler invariant holds and every
    /// per-node table has one entry per node.
    pub open spec fn wf(&self) -> bool {
        &&& self.sched().inv()
        &&& self.spec_ids().len() == self.sched().node_count()
        &&& self.spec_names().len() == self.sched().node_count()
        &&& self.spec_actions().len() == self.sched().node_count()
    }

    /// The number of nodes.
    pub fn len(&self) -> (r: usize)
        ensures
            r == self.sched().node_count(),
    {
        self.sched.len()
    }

    /// What `get_output` returns: the output slot of the first node with
    /// the given identifier.
    pub open spec fn spec_get_output(&self, id: Id) -> Option<OutputModel> {
        let t = id_index(self.spec_ids(), id);
        if t == -1 {
            None
        } else {
            self.sched().output_of(t)
        }
    }

    /// A snapshot of the output published by the node with identifier
    /// `node`, if any.
    pub fn get_output(&self, node: Id) -> (r: Option<ActionOutput>)
        requires
            self.wf(),
        ensures
            opt_output_model(r) == self.spec_get_output(node),
    {
        match find_id(&self.ids, node) {
            Some(t) => self.sched.output(t),
            None => None,
        }
    }

    /// The state value registered under the type tag `tag`, if any.
    pub fn get_state(&self, tag: &String) -> (r: Option<ActionOutput>)
        ensures
            opt_output_model(r) == lookup(self.state_entries(), tag@),
    {
        self.registry.get_state(tag)
    }

    /// The value registered under `name`, if any.
    pub fn get_variable(&self, name: &String) -> (r: Option<ActionOutput>)
        ensures
            opt_output_model(r) == lookup(self.variable_entries(), name@),
    {
        self.registry.get_variable(name)
    }

    /// The full lifecycle log, oldest first.
    pub fn events(&self) -> (r: Vec<Event>)
        ensures
            r@ == self.sched().log(),
    {
        self.sched.log_snapshot()
    }

    /// The observer's view of the log: starts, finishes and failures of
    /// nodes with a non-empty display name.
    pub fn hook_events(&self) -> (r: Vec<Event>)
        requires
            self.wf(),
        ensures
            r@ == hook_view(self.sched().log(), self.spec_names()),
    {
        let log = self.sched.log_snapshot();
        let mut r: Vec<Event> = Vec::new();
        let n = log.len();
        let mut j: usize = 0;
        while j < n
            invariant
                self.wf(),
                j <= n,
                n == self.sched().log().len(),
                log@ == self.sched().log(),
                r@ == hook_view(self.sched().log().take(j as int), self.spec_names()),
            decreases n - j,
        {
            let e = log[j];
            proof {
                assert(self.sched().log().take(j + 1).drop_last() =~= self.sched().log().take(
                    j as int,
                ));
                assert(self.sched().log().take(j + 1).last() == e);
            }
            let keep = match e.kind {
                EventKind::Started => true,
                EventKind::Finished => true,
                EventKind::Failed => true,
                _ => false,
            };
            if keep && e.node < self.names.len() {
                let named = !self.names[e.node].as_str().is_empty();
                if named {
                    r.push(e);
                }
            }
            j = j + 1;
        }
        proof {
            assert(self.sched().log().take(n as int) =~= self.sched().log());
        }
        r
    }

    /// Skip respects the probe even for named nodes: a skipped node is
    /// never reported to observers.
    pub proof fn lemma_skipped_nodes_unreported(&self, i: usize)
        requires
            self.wf(),
            (i as int) < self.sched().node_count(),
            self.sched().status_of(i as int) is Skipped,
        ensures
            forall|p: int|
                0 <= p < hook_view(self.sched().log(), self.spec_names()).len() ==> (
                #[trigger] hook_view(self.sched().log(), self.spec_names())[p]).node != i,
    {
        self.sched().lemma_skip_suppresses_events(i);
        lemma_no_events_no_hooks(self.sched().log(), self.spec_names(), i);
    }

    /// The display name cached for node `i`.
    pub fn display_name_of(&self, i: usize) -> (r: &String)
        requires
            self.wf(),
            i < self.sched().node_count(),
        ensures
            r == self.spec_names()[i as int],
    {
        &self.names[i]
    }

    /// A read handle over the current outputs and the registry.
    fn handle(&self) -> (r: RuntimeHandle)
        requires
            self.wf(),
        ensures
            r.wf(),
            r.spec_ids() == self.spec_ids(),
            r.outputs_model() == self.sched().outputs_model(),
            r.state_entries() == self.state_entries(),
            r.variable_entries() == self.variable_entries(),
    {
        let r = RuntimeHandle {
            ids: clone_ids(&self.ids),
            outputs: self.sched.outputs_snapshot(),
            registry: self.registry.clone(),
        };
        proof {
            self.sched().lemma_lens();
            assert(r.outputs_model() =~= self.sched().outputs_model());
        }
        r
    }

    /// Execute the workflow.
    ///
    /// Every node is run at most once, prerequisites first; a node whose
    /// probe reports nothing to do is skipped; outputs are published for
    /// dependents; the first error aborts the rest and is returned.  On a
    /// graph whose remaining nodes all wait on one another no progress is
    /// possible and an internal error is returned.
    pub fn perform(&mut self) -> (r: Result<(), ActionError>)
        requires
            old(self).wf(),
        ensures
            final(self).wf(),
            same_graph(old(self).sched(), final(self).sched()),
            final(self).spec_ids() == old(self).spec_ids(),
            final(self).spec_names() == old(self).spec_names(),
            final(self).state_entries() == old(self).state_entries(),
            final(self).variable_entries() == old(self).variable_entries(),
            is_prefix(old(self).sched().log(), final(self).sched().log()),
            forall|i: int|
                0 <= i < final(self).sched().node_count() ==> !final(self).sched().spec_can_start(
                    i,
                ),
            match r {
                Result::Ok(_) => final(self).sched().spec_all_settled()
                    && final(self).sched().failure() is None,
                Result::Err(e) => final(self).sched().failure() == Some(e)
                    || (e matches ActionError::InternalError(c) && c@ == "CYCLE"@
                    && final(self).sched().failure() is None
                    && !final(self).sched().spec_all_settled()),
            },
    {
        let ghost entry = *self;
        proof {
            lemma_prefix_refl(entry.sched().log());
        }
        loop
            invariant
                self.wf(),
                same_graph(entry.sched(), self.sched()),
                self.spec_ids() == entry.spec_ids(),
                self.spec_names() == entry.spec_names(),
                self.spec_actions() == entry.spec_actions(),
                self.state_entries() == entry.state_entries(),
                self.variable_entries() == entry.variable_entries(),
                is_prefix(entry.sched().log(), self.sched().log()),
            ensures
                self.wf(),
                same_graph(entry.sched(), self.sched()),
                self.spec_ids() == entry.spec_ids(),
                self.spec_names() == entry.spec_names(),
                self.state_entries() == entry.state_entries(),
                self.variable_entries() == entry.variable_entries(),
                is_prefix(entry.sched().log(), self.sched().log()),
                forall|i: int|
                    0 <= i < self.sched().node_count() ==> !self.sched().spec_can_start(i),
            decreases count_pending(self.sched().statuses()),
        {
            let pick = self.sched.next_startable();
            match pick {
                None => {
                    break ;
                },
                Some(i) => {
                    proof {
                        self.sched().lemma_lens();
                    }
                    let ghost at_pick = *self;
                    self.sched.begin_probe(i);
                    let handle = self.handle();
                    let pr = self.actions[i].probe(&handle);
                    self.sched.finish_probe(i, pr);
                    let ghost after_probe = *self;
                    let running = matches!(self.sched.status(i), Status::Running);
                    if running {
                        let handle2 = self.handle();
                        let rr = self.actions[i].run(&handle2, Operation::Perform);
                        if let Result::Err(ActionError::ActionFailed(_, long)) = &rr {
                            write_error_line(long.as_str());
                        }
                        self.sched.finish_run(i, rr);
                    }
                    proof {
                        lemma_count_pending_nonneg(self.sched().statuses());
                        let base = at_pick.sched().log();
                        assert(is_prefix(base, after_probe.sched().log())) by {
                            lemma_prefix_refl(base);
                            lemma_prefix_push(base, ev(EventKind::Failed, i));
                            lemma_prefix_push(base, ev(EventKind::Skipped, i));
                            lemma_prefix_push(base, ev(EventKind::Started, i));
                        }
                        assert(is_prefix(after_probe.sched().log(), self.sched().log())) by {
                            lemma_prefix_refl(after_probe.sched().log());
                            lemma_prefix_push(after_probe.sched().log(), ev(EventKind::Failed, i));
                            lemma_prefix_push(
                                after_probe.sched().log(),
                                ev(EventKind::Finished, i),
                            );
                        }
                        lemma_prefix_trans(
                            entry.sched().log(),
                            base,
                            after_probe.sched().log(),
                        );
                        lemma_prefix_trans(
                            entry.sched().log(),
                            after_probe.sched().log(),
                            self.sched().log(),
                        );
                    }
                },
            }
        }
        match self.sched.failure_value() {
            Some(e) => Result::Err(e),
            None => {
                if self.sched.all_settled() {
                    Result::Ok(())
                } else {
                    Result::Err(ActionError::InternalError("CYCLE".to_owned()))
                }
            },
        }
    }
}

/// Decide whether a rollback may begin: it may exactly when every probe
/// reported `can_rollback`; otherwise the rollback is refused with
/// `InternalError("NO_ROLLBACK")`.
pub fn rollback_gate(probes: &Vec<Probe>) -> (r: Result<(), ActionError>)
    ensures
        r is Ok <==> forall|i: int| 0 <= i < probes@.len() ==> (#[trigger] probes@[i]).can_rollback,
        r matches Err(e) ==> e matches ActionError::InternalError(c) && c@ == "NO_ROLLBACK"@,
{
    let n = probes.len();
    let mut i: usize = 0;
    while i < n
        invariant
            i <= n,
            n == probes@.len(),
            forall|i2: int| 0 <= i2 < i ==> (#[trigger] probes@[i2]).can_rollback,
        decreases n - i,
    {
        if !probes[i].can_rollback {
            return Result::Err(ActionError::InternalError("NO_ROLLBACK".to_owned()));
        }
        i = i + 1;
    }
    Result::Ok(())
}

/// The rollback discipline over a log extension: among the nodes whose
/// `run(Rollback)` began, each began before every one of its
/// prerequisites, and none began twice.
pub open spec fn rollback_suffix_ok(pre: Scheduler, post: Scheduler) -> bool {
    let starts = rollback_starts(post.log().skip(pre.log().len() as int));
    &&& forall|a: int, b: int|
        #![trigger starts[a], starts[b]]
        0 <= a < starts.len() && 0 <= b < starts.len() && post.deps_of(starts[a] as int).contains(
            starts[b],
        ) ==> a < b
    &&& forall|a: int, b: int|
        #![trigger starts[a], starts[b]]
        0 <= a < starts.len() && 0 <= b < starts.len() && a != b ==> starts[a] != starts[b]
    &&& forall|a: int| 0 <= a < starts.len() ==> (#[trigger] starts[a]) < post.node_count()
}

impl<A: Action> Runtime<A> {
    /// Undo the workflow, dependents before what they depended on.
    ///
    /// Every node is probed first; if any probe fails its error is
    /// returned, and if any node does not support rollback an internal
    /// error is returned — in both cases before any `run(Rollback)`.
    /// Otherwise every node's `run(Rollback)` is invoked in reverse
    /// dependency order, serially; the first error aborts the rest.
    pub fn rollback(&mut self) -> (r: Result<(), ActionError>)
        requires
            old(self).wf(),
        ensures
            final(self).wf(),
            same_graph(old(self).sched(), final(self).sched()),
            final(self).spec_ids() == old(self).spec_ids(),
            final(self).spec_names() == old(self).spec_names(),
            final(self).state_entries() == old(self).state_entries(),
            final(self).variable_entries() == old(self).variable_entries(),
            final(self).sched().statuses() == old(self).sched().statuses(),
            final(self).sched().outputs_model() == old(self).sched().outputs_model(),
            final(self).sched().failure() == old(self).sched().failure(),
            is_prefix(old(self).sched().log(), final(self).sched().log()),
            rollback_suffix_ok(old(self).sched(), final(self).sched()),
            rollback_starts(final(self).sched().log().skip(old(self).sched().log().len() as int)).len()
                == 0 ==> final(self).sched().log() == old(self).sched().log(),
            r is Ok ==> rollback_starts(
                final(self).sched().log().skip(old(self).sched().log().len() as int),
            ).len() == final(self).sched().node_count(),
    {
        let ghost entry = *self;
        let ghost base = entry.sched().log().len() as int;
        proof {
            lemma_prefix_refl(entry.sched().log());
            assert(entry.sched().log().skip(base) =~= Seq::<Event>::empty());
        }
        let n = self.sched.len();
        let handle = self.handle();
        let mut probes: Vec<Probe> = Vec::new();
        let mut i: usize = 0;
        while i < n
            invariant
                entry == *old(self),
                self.wf(),
                *self == entry,
                n == self.sched().node_count(),
                handle.wf(),
                i <= n,
                probes@.len() == i,
            decreases n - i,
        {
            let pr = self.actions[i].probe(&handle);
            match pr {
                Result::Err(e) => {
                    proof {
                        lemma_prefix_refl(self.sched().log());
                    }
                    return Result::Err(e);
                },
                Result::Ok(p) => {
                    probes.push(p);
                },
            }
            i = i + 1;
        }
        match rollback_gate(&probes) {
            Result::Err(e) => {
                proof {
                    lemma_prefix_refl(self.sched().log());
                }
                return Result::Err(e);
            },
            Result::Ok(_) => {},
        }
        let order = self.sched.rollback_order();
        if order.len() < n {
            proof {
                lemma_prefix_refl(self.sched().log());
            }
            return Result::Err(ActionError::InternalError("CYCLE".to_owned()));
        }
        let total = order.len();
        let mut t: usize = 0;
        while t < total
            invariant
                entry == *old(self),
                self.wf(),
                same_graph(entry.sched(), self.sched()),
                self.spec_ids() == entry.spec_ids(),
                self.spec_names() == entry.spec_names(),
                self.spec_actions() == entry.spec_actions(),
                self.state_entries() == entry.state_entries(),
                self.variable_entries() == entry.variable_entries(),
                self.sched().statuses() == entry.sched().statuses(),
                self.sched().outputs_model() == entry.sched().outputs_model(),
                self.sched().failure() == entry.sched().failure(),
                is_prefix(entry.sched().log(), self.sched().log()),
                base == entry.sched().log().len() as int,
                total == order@.len(),
                total == self.sched().node_count(),
                t <= total,
                forall|a: int|
                    0 <= a < order@.len() ==> (#[trigger] order@[a])
                        < self.sched().node_count(),
                forall|a: int, b: int|
                    #![trigger order@[a], order@[b]]
                    0 <= a < order@.len() && 0 <= b < order@.len() && a != b ==> order@[a]
                        != order@[b],
                forall|a: int, b: int|
                    #![trigger order@[a], order@[b]]
                    0 <= a < order@.len() && 0 <= b < order@.len() && self.sched().deps_of(
                        order@[a] as int,
                    ).contains(order@[b]) ==> a < b,
                rollback_starts(self.sched().log().skip(base)) == order@.take(t as int),
                t == 0 ==> self.sched().log() == entry.sched().log(),
            decreases total - t,
        {
            let idx = order[t];
            let ghost before = *self;
            self.sched.log_rollback_started(idx);
            proof {
                lemma_skip_push(before.sched().log(), ev(EventKind::RollbackStarted, idx), base);
                let suf_before = before.sched().log().skip(base);
                let suf_after = self.sched().log().skip(base);
                assert(suf_after == suf_before.push(ev(EventKind::RollbackStarted, idx)));
                assert(suf_after.drop_last() =~= suf_before);
                assert(suf_after.last() == ev(EventKind::RollbackStarted, idx));
                assert(rollback_starts(suf_after) == rollback_starts(suf_before).push(idx));
                assert(rollback_starts(suf_after) =~= order@.take(t + 1)) by {
                    assert(order@.take(t + 1).drop_last() =~= order@.take(t as int));
                }
                lemma_prefix_push(before.sched().log(), ev(EventKind::RollbackStarted, idx));
                lemma_prefix_trans(
                    entry.sched().log(),
                    before.sched().log(),
                    self.sched().log(),
                );
            }
            let handle2 = self.handle();
            let rr = self.actions[idx].run(&handle2, Operation::Rollback);
            let ghost mid = *self;
            match rr {
                Result::Err(e) => {
                    if let ActionError::ActionFailed(_, long) = &e {
                        write_error_line(long.as_str());
                    }
                    self.sched.log_rollback_failed(idx);
                    proof {
                        lemma_skip_push(
                            mid.sched().log(),
                            ev(EventKind::RollbackFailed, idx),
                            base,
                        );
                        let suf_mid = mid.sched().log().skip(base);
                        let suf_after = self.sched().log().skip(base);
                        assert(suf_after == suf_mid.push(ev(EventKind::RollbackFailed, idx)));
                        assert(suf_after.drop_last() =~= suf_mid);
                        assert(suf_after.last() == ev(EventKind::RollbackFailed, idx));
                        assert(rollback_starts(suf_after) == order@.take(t + 1));
                        lemma_prefix_push(mid.sched().log(), ev(EventKind::RollbackFailed, idx));
                        lemma_prefix_trans(
                            entry.sched().log(),
                            mid.sched().log(),
                            self.sched().log(),
                        );
                        Self::lemma_take_order_ok(*old(self), *self, order@, t + 1);
                    }
                    return Result::Err(e);
                },
                Result::Ok(_) => {
                    self.sched.log_rollback_finished(idx);
                    proof {
                        lemma_skip_push(
                            mid.sched().log(),
                            ev(EventKind::RollbackFinished, idx),
                            base,
                        );
                        let suf_mid = mid.sched().log().skip(base);
                        let suf_after = self.sched().log().skip(base);
                        assert(suf_after == suf_mid.push(ev(EventKind::RollbackFinished, idx)));
                        assert(suf_after.drop_last() =~= suf_mid);
                        assert(suf_after.last() == ev(EventKind::RollbackFinished, idx));
                        assert(rollback_starts(suf_after) == order@.take(t + 1));
                        lemma_prefix_push(
                            mid.sched().log(),
                            ev(EventKind::RollbackFinished, idx),
                        );
                        lemma_prefix_trans(
                            entry.sched().log(),
                            mid.sched().log(),
                            self.sched().log(),
                        );
                    }
                },
            }
            t = t + 1;
        }
        proof {
            assert(order@.take(total as int) =~= order@);
            Self::lemma_take_order_ok(*old(self), *self, order@, total as int);
        }
        Result::Ok(())
    }

    /// The rollback discipline holds of any run prefix of a
    /// reverse-topological order.
    proof fn lemma_take_order_ok(pre: Self, post: Self, order: Seq<usize>, t: int)
        requires
            0 <= t <= order.len(),
            rollback_starts(post.sched().log().skip(pre.sched().log().len() as int))
                == order.take(t),
            forall|a: int| 0 <= a < order.len() ==> (#[trigger] order[a]) < post.sched().node_count(),
            forall|a: int, b: int|
                #![trigger order[a], order[b]]
                0 <= a < order.len() && 0 <= b < order.len() && a != b ==> order[a] != order[b],
            forall|a: int, b: int|
                #![trigger order[a], order[b]]
                0 <= a < order.len() && 0 <= b < order.len() && post.sched().deps_of(
                    order[a] as int,
                ).contains(order[b]) ==> a < b,
        ensures
            rollback_suffix_ok(pre.sched(), post.sched()),
    {
        let starts = rollback_starts(post.sched().log().skip(pre.sched().log().len() as int));
        assert forall|a: int, b: int|
            #![trigger starts[a], starts[b]]
            0 <= a < starts.len() && 0 <= b < starts.len() && post.sched().deps_of(
                starts[a] as int,
            ).contains(starts[b]) implies a < b by {
            assert(starts[a] == order[a]);
            assert(starts[b] == order[b]);
        }
        assert forall|a: int, b: int|
            #![trigger starts[a], starts[b]]
            0 <= a < starts.len() && 0 <= b < starts.len() && a != b implies starts[a]
            != starts[b] by {
            assert(starts[a] == order[a]);
            assert(starts[b] == order[b]);
        }
        assert forall|a: int| 0 <= a < starts.len() implies (#[trigger] starts[a])
            < post.sched().node_count() by {
            assert(starts[a] == order[a]);
        }
    }
}

/// Assembles nodes and shared state into a runtime.
///
/// The builder is a pure collector: it does not validate the graph.
pub struct RuntimeBuilder<A> {
    actions: Vec<A>,
    names: Vec<String>,
    ids: Vec<Id>,
    dep_ids: Vec<Vec<Id>>,
    registry: Registry,
}

impl<A: Action> RuntimeBuilder<A> {
    /// The identifiers of the nodes added so far, in order.
    pub closed spec fn spec_ids(&self) -> Seq<Id> {
        self.ids@
    }

    /// The prerequisite identifier lists of the nodes added so far.
    pub closed spec fn spec_dep_ids(&self) -> Seq<Seq<Id>> {
        self.dep_ids@.map_values(|d: Vec<Id>| d@)
    }

    /// The actions added so far, in order.
    pub closed spec fn spec_actions(&self) -> Seq<A> {
        self.actions@
    }

    /// The cached display names of the nodes added so far.
    pub closed spec fn spec_names(&self) -> Seq<String> {
        self.names@
    }

    /// The registrations of the type-tagged store.
    pub closed spec fn state_entries(&self) -> Seq<(String, ActionOutput)> {
        self.registry.state_entries()
    }

    /// The registrations of the named store.
    pub closed spec fn variable_entries(&self) -> Seq<(String, ActionOutput)> {
        self.registry.variable_entries()
    }

    /// One entry per node in every table.
    pub open spec fn wf(&self) -> bool {
        &&& self.spec_dep_ids().len() == self.spec_ids().len()
        &&& self.spec_actions().len() == self.spec_ids().len()
        &&& self.spec_names().len() == self.spec_ids().len()
    }

    /// A builder with no nodes and an empty registry.
    pub fn new() -> (r: Self)
        ensures
            r.wf(),
            r.spec_ids() == Seq::<Id>::empty(),
            r.spec_dep_ids() == Seq::<Seq<Id>>::empty(),
            r.spec_actions() == Seq::<A>::empty(),
            r.state_entries() == Seq::<(String, ActionOutput)>::empty(),
            r.variable_entries() == Seq::<(String, ActionOutput)>::empty(),
    {
        let r = RuntimeBuilder {
            actions: Vec::new(),
            names: Vec::new(),
            ids: Vec::new(),
            dep_ids: Vec::new(),
            registry: Registry::new(),
        };
        proof {
            assert(r.spec_dep_ids() =~= Seq::<Seq<Id>>::empty());
        }
        r
    }

    /// Add a node: its action's state hook runs first, then the node is
    /// appended to the graph.
    pub fn add_action(self, action: Node<A>) -> (r: Self)
        requires
            self.wf(),
        ensures
            r.wf(),
            r.spec_ids() == self.spec_ids().push(action.spec_id()),
            r.spec_dep_ids() == self.spec_dep_ids().push(action.spec_deps()),
            r.spec_actions() == self.spec_actions().push(action.spec_action()),
    {
        let mut b = self;
        let (a, deps, id) = action.into_parts();
        a.load_state(&mut b.registry);
        let name = a.display_name();
        b.actions.push(a);
        b.names.push(name);
        b.ids.push(id);
        b.dep_ids.push(deps);
        proof {
            assert(b.spec_dep_ids() =~= self.spec_dep_ids().push(action.spec_deps()));
        }
        b
    }

    /// Add every node of a scope, in order.
    pub fn add_scope(self, scope: Scope<A>) -> (r: Self)
        requires
            self.wf(),
        ensures
            r.wf(),
            r.spec_ids() == self.spec_ids() + scope.spec_actions().map_values(
                |n: Node<A>| n.spec_id(),
            ),
            r.spec_dep_ids() == self.spec_dep_ids() + scope.spec_actions().map_values(
                |n: Node<A>| n.spec_deps(),
            ),
    {
        let ghost nodes = scope.spec_actions();
        let mut remaining = scope.actions_owned();
        let mut b = self;
        let ghost t: int = 0;
        proof {
            assert(b.spec_ids() =~= self.spec_ids() + nodes.take(0).map_values(
                |n: Node<A>| n.spec_id(),
            ));
            assert(b.spec_dep_ids() =~= self.spec_dep_ids() + nodes.take(0).map_values(
                |n: Node<A>| n.spec_deps(),
            ));
            assert(remaining@ =~= nodes.skip(0));
        }
        while remaining.len() > 0
            invariant
                b.wf(),
                0 <= t <= nodes.len(),
                remaining@ == nodes.skip(t),
                b.spec_ids() == self.spec_ids() + nodes.take(t).map_values(
                    |n: Node<A>| n.spec_id(),
                ),
                b.spec_dep_ids() == self.spec_dep_ids() + nodes.take(t).map_values(
                    |n: Node<A>| n.spec_deps(),
                ),
            decreases remaining@.len(),
        {
            let node = remaining.remove(0);
            proof {
                assert(node == nodes[t]);
                assert(remaining@ =~= nodes.skip(t + 1));
            }
            b = b.add_action(node);
            proof {
                assert(b.spec_ids() =~= self.spec_ids() + nodes.take(t + 1).map_values(
                    |n: Node<A>| n.spec_id(),
                ));
                assert(b.spec_dep_ids() =~= self.spec_dep_ids() + nodes.take(t + 1).map_values(
                    |n: Node<A>| n.spec_deps(),
                ));
            }
            proof {
                t = t + 1;
            }
        }
        proof {
            assert(nodes.take(nodes.len() as int) =~= nodes);
        }
        b
    }

    /// Store a value in the type-tagged state map, overriding an earlier
    /// value under the same tag.
    pub fn add_state(&mut self, tag: String, value: ActionOutput)
        ensures
            final(self).state_entries() == old(self).state_entries().push((tag, value)),
            final(self).variable_entries() == old(self).variable_entries(),
            final(self).spec_ids() == old(self).spec_ids(),
            final(self).spec_dep_ids() == old(self).spec_dep_ids(),
            final(self).spec_actions() == old(self).spec_actions(),
            final(self).spec_names() == old(self).spec_names(),
    {
        self.registry.add_state(tag, value);
    }

    /// Store a value in the name-keyed state map, overriding an earlier
    /// value under the same name.
    pub fn set_variable(&mut self, name: String, value: ActionOutput)
        ensures
            final(self).variable_entries() == old(self).variable_entries().push((name, value)),
            final(self).state_entries() == old(self).state_entries(),
            final(self).spec_ids() == old(self).spec_ids(),
            final(self).spec_dep_ids() == old(self).spec_dep_ids(),
            final(self).spec_actions() == old(self).spec_actions(),
            final(self).spec_names() == old(self).spec_names(),
    {
        self.registry.set_variable(name, value);
    }

    /// Freeze the graph and the state into a runtime.
    ///
    /// Prerequisite identifiers are resolved to graph positions; one that
    /// names no node of the graph imposes no wait.
    pub fn build(self) -> (r: Runtime<A>)
        requires
            self.wf(),
        ensures
            r.wf(),
            r.spec_ids() == self.spec_ids(),
            r.spec_actions() == self.spec_actions(),
            r.spec_names() == self.spec_names(),
            r.sched().node_count() == self.spec_ids().len(),
            forall|i: int|
                0 <= i < self.spec_ids().len() ==> #[trigger] r.sched().deps_of(i)
                    == resolve_dep_ids(self.spec_dep_ids()[i], self.spec_ids()),
            forall|i: int|
                0 <= i < self.spec_ids().len() ==> #[trigger] r.sched().status_of(i) is Pending,
            r.sched().log() == Seq::<Event>::empty(),
            forall|i: int|
                0 <= i < self.spec_ids().len() ==> #[trigger] r.sched().output_of(i) is None,
            r.sched().failure() is None,
            r.state_entries() == self.state_entries(),
            r.variable_entries() == self.variable_entries(),
    {
        let n = self.ids.len();
        let mut resolved: Vec<Vec<usize>> = Vec::new();
        let mut i: usize = 0;
        while i < n
            invariant
                self.wf(),
                i <= n,
                n == self.spec_ids().len(),
                resolved@.len() == i,
                forall|i2: int|
                    0 <= i2 < i ==> (#[trigger] resolved@[i2])@ == resolve_dep_ids(
                        self.spec_dep_ids()[i2],
                        self.spec_ids(),
                    ),
            decreases n - i,
        {
            let dep_list = &self.dep_ids[i];
            let m = dep_list.len();
            let mut cur: Vec<usize> = Vec::new();
            let mut k: usize = 0;
            proof {
                assert(self.spec_dep_ids()[i as int] == dep_list@);
                assert(dep_list@.take(0) =~= Seq::<Id>::empty());
            }
            while k < m
                invariant
                    self.wf(),
                    i < n,
                    n == self.spec_ids().len(),
                    m == dep_list@.len(),
                    dep_list == &self.dep_ids[i as int],
                    k <= m,
                    cur@ == resolve_dep_ids(dep_list@.take(k as int), self.spec_ids()),
                decreases m - k,
            {
                proof {
                    assert(dep_list@.take(k + 1).drop_last() =~= dep_list@.take(k as int));
                    assert(dep_list@.take(k + 1).last() == dep_list@[k as int]);
                }
                match find_id(&self.ids, dep_list[k]) {
                    Some(t) => {
                        cur.push(t);
                    },
                    None => {},
                }
                k = k + 1;
            }
            proof {
                assert(dep_list@.take(m as int) =~= dep_list@);
                assert(self.spec_dep_ids()[i as int] == dep_list@);
            }
            resolved.push(cur);
            i = i + 1;
        }
        proof {
            assert forall|i2: int, k: int|
                0 <= i2 < resolved@.len() && 0 <= k < resolved@[i2]@.len() implies (
            #[trigger] resolved@[i2]@[k]) < resolved@.len() by {
                lemma_resolve_bounds(self.spec_dep_ids()[i2], self.spec_ids());
            }
        }
        let sched = Scheduler::new(resolved);
        let r = Runtime {
            sched,
            actions: self.actions,
            names: self.names,
            ids: self.ids,
            registry: self.registry,
        };
        proof {
            assert forall|i2: int| 0 <= i2 < self.spec_ids().len() implies #[trigger] r.sched().deps_of(i2)
                == resolve_dep_ids(self.spec_dep_ids()[i2], self.spec_ids()) by {
                assert(r.sched().deps_of(i2) == resolved@[i2]@);
            }
        }
        r
    }
}

impl<A: Action> Default for RuntimeBuilder<A> {
    /// The default builder is empty.
    fn default() -> (r: Self)
        ensures
            r.wf(),
            r.spec_ids() == Seq::<Id>::empty(),
            r.spec_actions() == Seq::<A>::empty(),
    {
        RuntimeBuilder::new()
    }
}

} // verus!
