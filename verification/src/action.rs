//! The action contract and the node wrapper.

use vstd::prelude::*;

use crate::error::ActionError;
use crate::id::Id;
use crate::output::ActionOutput;
use crate::registry::Registry;
use crate::runtime::RuntimeHandle;
use crate::{Operation, Probe};

verus! {

/// A measurable, reversible task.
///
/// An action can test its environment to see whether it needs to run at
/// all, and can undo changes it has made.  The runtime calls `probe`
/// before deciding to run, `run` for the effectful step, and
/// `display_name` for observers; `load_state` is invoked once when the
/// node is added to a builder.
pub trait Action {
    /// Probe the environment: does the action still need to run, and can
    /// it be rolled back?  Probing must be free of external side effects
    /// and idempotent.
    fn probe(&self, runtime: &RuntimeHandle) -> Result<Probe, ActionError>;

    /// Run the action.  For [`Operation::Perform`] an output may be
    /// returned; for [`Operation::Rollback`] any output is ignored.  An
    /// unsupported operation is answered with
    /// [`ActionError::OperationNotSupported`].
    fn run(&self, runtime: &RuntimeHandle, operation: Operation) -> Result<
        Option<ActionOutput>,
        ActionError,
    >;

    /// A human label for observers.  An empty label suppresses lifecycle
    /// reporting for this action.
    fn display_name(&self) -> String;

    /// Pre-register any state the action will later require.
    fn load_state(&self, registry: &mut Registry) {
        let _ = registry;
    }
}

/// A node in the workflow graph: an action together with its identity
/// and the identifiers of its prerequisites.
pub struct Node<A> {
    action: A,
    deps: Vec<Id>,
    id: Id,
}

impl<A: Action> Node<A> {
    /// The node's identifier.
    pub closed spec fn spec_id(&self) -> Id {
        self.id
    }

    /// The identifiers this node depends on, in insertion order.
    pub closed spec fn spec_deps(&self) -> Seq<Id> {
        self.deps@
    }

    /// The wrapped action.
    pub closed spec fn spec_action(&self) -> A {
        self.action
    }

    /// Wrap an action into a node with a fresh identifier and no
    /// prerequisites.
    pub fn new(action: A) -> (r: Node<A>)
        ensures
            r.spec_deps() == Seq::<Id>::empty(),
            r.spec_action() == action,
    {
        Node { action, deps: Vec::new(), id: Id::fresh() }
    }

    /// The node's identifier, used for dynamic inputs and output lookup.
    pub fn id(&self) -> (r: Id)
        ensures
            r == self.spec_id(),
    {
        self.id
    }

    /// The display name of the wrapped action.
    pub fn display_name(&self) -> String {
        self.action.display_name()
    }

    /// Add the node with the given identifier as a prerequisite.
    pub fn depends_on(&mut self, other: Id)
        ensures
            final(self).spec_deps() == old(self).spec_deps().push(other),
            final(self).spec_id() == old(self).spec_id(),
            final(self).spec_action() == old(self).spec_action(),
    {
        self.deps.push(other);
    }

    /// Split the node into its action, prerequisite list and identifier.
    pub(crate) fn into_parts(self) -> (r: (A, Vec<Id>, Id))
        ensures
            r.0 == self.spec_action(),
            r.1@ == self.spec_deps(),
            r.2 == self.spec_id(),
    {
        let Node { action, deps, id } = self;
        (action, deps, id)
    }
}

} // verus!
