//! Core runtime for the `barley` workflow engine.
//!
//! A workflow is a directed acyclic graph of idempotent, reversible
//! actions.  The graph is assembled through [`RuntimeBuilder`], frozen into
//! a [`Runtime`], and executed by [`Runtime::perform`], which honours the
//! dependency edges, skips actions whose probe reports nothing to do,
//! carries typed outputs forward to dependents, and aborts on the first
//! error.  [`Runtime::rollback`] undoes a workflow in reverse dependency
//! order when every action supports it.

use vstd::prelude::*;

pub mod action;
pub mod apt;
pub mod error;
pub mod event;
pub mod fs;
pub mod http;
pub mod id;
pub mod input;
pub mod output;
pub mod process;
pub mod registry;
pub mod runtime;
pub mod schema;
pub mod scheduler;
pub mod scope;
pub mod sync;
pub mod text;
pub mod time;

pub use action::{Action, Node};
pub use error::ActionError;
pub use id::Id;
pub use input::Input;
pub use output::ActionOutput;
pub use registry::Registry;
pub use runtime::{Runtime, RuntimeBuilder, RuntimeHandle};
pub use scope::Scope;

verus! {

/// The operation an action is asked to carry out by `run`.
#[derive(Debug, Clone, Copy, PartialEq, Eq, Structural)]
pub enum Operation {
    /// Perform the action.
    Perform,
    /// Undo a previously performed action.
    Rollback,
}

/// What an action reports about its environment before running.
///
/// `needs_run == false` means the desired post-condition already holds and
/// the runtime skips the action.  `can_rollback == true` means the action
/// supports [`Operation::Rollback`].
#[derive(Debug, Clone, Copy, PartialEq, Eq, Structural)]
pub struct Probe {
    /// Whether the action still needs to be run.
    pub needs_run: bool,
    /// Whether `rollback` is available.
    pub can_rollback: bool,
}

impl Default for Probe {
    /// By default an action needs to run and cannot be rolled back.
    fn default() -> (r: Self)
        ensures
            r.needs_run == true,
            r.can_rollback == false,
    {
        Probe { needs_run: true, can_rollback: false }
    }
}

} // verus!
