//! A pure rendezvous action.

use vstd::prelude::*;

use crate::error::ActionError;
use crate::output::ActionOutput;
use crate::{Operation, Probe};

verus! {

/// Waits for its prerequisites and does nothing else.
///
/// A join never needs to run, so dependents are released as soon as
/// every prerequisite of the join has settled.
pub struct Join {
}

impl Join {
    /// A new join.
    pub fn new() -> Join {
        Join {  }
    }

    /// A join never needs to run and cannot be rolled back.
    pub fn probe(&self) -> (r: Probe)
        ensures
            r.needs_run == false,
            r.can_rollback == false,
    {
        Probe { needs_run: false, can_rollback: false }
    }

    /// A join has no effect and no output, whatever the operation.
    pub fn run(&self, operation: Operation) -> (r: Result<Option<ActionOutput>, ActionError>)
        ensures
            r == Ok::<Option<ActionOutput>, ActionError>(None),
    {
        let _ = operation;
        Ok(None)
    }

    /// A join is silent: the empty label suppresses lifecycle reporting.
    pub fn display_name(&self) -> (r: String)
        ensures
            r@ == Seq::<char>::empty(),
    {
        String::new()
    }
}

impl Default for Join {
    /// Joins carry no data; the default one is the join.
    fn default() -> (r: Self) {
        Join::new()
    }
}

} // verus!
