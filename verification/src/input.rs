//! Inputs to actions: literal values or handles to dependency outputs.

use vstd::prelude::*;

use crate::id::Id;
use crate::output::OutputModel;
use crate::runtime::RuntimeHandle;

verus! {

/// Whether a string input can be resolved against the given handle: a
/// static input always can; a dynamic one needs a published string
/// output under its identifier.
pub open spec fn resolvable(input: Input<String>, h: RuntimeHandle) -> bool {
    match input {
        Input::Static(_) => true,
        Input::Dynamic(id) => h.spec_get_output(id) matches Some(OutputModel::Str(_)),
    }
}

/// What a string input resolves to: its literal value, or the string
/// output published under its identifier.
pub open spec fn resolves_to(input: Input<String>, h: RuntimeHandle, out: Seq<char>) -> bool {
    match input {
        Input::Static(s) => out == s@,
        Input::Dynamic(id) => h.spec_get_output(id) == Some(OutputModel::Str(out)),
    }
}

/// An input for an action.
///
/// A `Static` input carries a literal value; a `Dynamic` input names a
/// prerequisite node whose output is resolved when the workflow runs.
/// Naming a node here does not by itself add the dependency edge: the
/// owning node must also call `requires` on it.
pub enum Input<T> {
    /// A static value.
    Static(T),
    /// The identifier of a node whose output will be used.
    Dynamic(Id),
}

impl<T> Input<T> {
    /// Creates a new input from a static value.
    pub fn new_static(value: T) -> (r: Self)
        ensures
            r == Input::Static(value),
    {
        Input::Static(value)
    }

    /// Creates a new input that resolves to the output of the node with
    /// the given identifier.
    pub fn new_dynamic(node: Id) -> (r: Self)
        ensures
            r == Input::<T>::Dynamic(node),
    {
        Input::Dynamic(node)
    }

    /// The static value, or `None` if the input is dynamic.
    pub fn static_value(&self) -> (r: Option<&T>)
        ensures
            match *self {
                Input::Static(_) => r matches Some(v) && *self == Input::Static(*v),
                Input::Dynamic(_) => r is None,
            },
    {
        match self {
            Input::Static(value) => Some(value),
            Input::Dynamic(_) => None,
        }
    }

    /// The identifier of the node this input resolves to, or `None` if
    /// the input is static.
    pub fn dynamic(&self) -> (r: Option<Id>)
        ensures
            match *self {
                Input::Static(_) => r is None,
                Input::Dynamic(node) => r == Some(node),
            },
    {
        match self {
            Input::Dynamic(node) => Some(*node),
            Input::Static(_) => None,
        }
    }

    /// The static value of an input known to be static.
    pub fn unwrap_static(&self) -> (r: &T)
        requires
            *self is Static,
        ensures
            *self == Input::Static(*r),
    {
        match self {
            Input::Static(value) => value,
            Input::Dynamic(_) => unreached(),
        }
    }

    /// The node identifier of an input known to be dynamic.
    pub fn unwrap_dynamic(&self) -> (r: Id)
        requires
            *self is Dynamic,
        ensures
            *self == Input::<T>::Dynamic(r),
    {
        match self {
            Input::Dynamic(node) => *node,
            Input::Static(_) => unreached(),
        }
    }

    /// Whether the input is a static value.
    pub fn is_static(&self) -> (r: bool)
        ensures
            r == (*self is Static),
    {
        match self {
            Input::Static(_) => true,
            Input::Dynamic(_) => false,
        }
    }

    /// Whether the input resolves to another node's output.
    pub fn is_dynamic(&self) -> (r: bool)
        ensures
            r == (*self is Dynamic),
    {
        match self {
            Input::Dynamic(_) => true,
            Input::Static(_) => false,
        }
    }
}

} // verus!
