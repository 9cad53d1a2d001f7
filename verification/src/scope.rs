//! Scopes: bundles of nodes added to a builder as a group.

use vstd::prelude::*;

use crate::action::{Action, Node};

verus! {

/// A collection of nodes.
///
/// A scope has no execution semantics of its own; adding it to a builder
/// is the same as adding each contained node in order.
pub struct Scope<A> {
    actions: Vec<Node<A>>,
}

impl<A: Action> Scope<A> {
    /// The nodes of the scope, in insertion order.
    pub closed spec fn spec_actions(&self) -> Seq<Node<A>> {
        self.actions@
    }

    /// An empty scope.
    pub fn new() -> (r: Scope<A>)
        ensures
            r.spec_actions() == Seq::<Node<A>>::empty(),
    {
        Scope { actions: Vec::new() }
    }

    /// Add a node to the scope.
    pub fn add_action(&mut self, action: Node<A>)
        ensures
            final(self).spec_actions() == old(self).spec_actions().push(action),
    {
        self.actions.push(action);
    }

    /// The nodes of the scope.
    pub fn actions(&self) -> (r: &Vec<Node<A>>)
        ensures
            r@ == self.spec_actions(),
    {
        &self.actions
    }

    /// Give up the scope's nodes for the builder to add.
    pub(crate) fn actions_owned(self) -> (r: Vec<Node<A>>)
        ensures
            r@ == self.spec_actions(),
    {
        self.actions
    }
}

} // verus!
