//! A timer action.

use vstd::prelude::*;

use crate::text::{dec_rep, u64_to_string};
use crate::Probe;

verus! {

/// Pause the workflow branch for a fixed time.
///
/// The waiting itself is effectful and is performed by the driver; the
/// action carries the duration and the probe decision.
pub struct Sleep {
    /// How long to sleep, in milliseconds.
    pub duration_ms: u64,
}

impl Sleep {
    /// A sleep of the given number of milliseconds.
    pub fn new(duration_ms: u64) -> (r: Self)
        ensures
            r.duration_ms == duration_ms,
    {
        Sleep { duration_ms }
    }

    /// A sleep always needs to run and cannot be rolled back.
    pub fn probe(&self) -> (r: Probe)
        ensures
            r.needs_run == true,
            r.can_rollback == false,
    {
        Probe { needs_run: true, can_rollback: false }
    }

    /// The observer label, carrying the duration.
    pub fn display_name(&self) -> (r: String)
        ensures
            r@ == "Sleep for "@ + dec_rep(self.duration_ms as int) + " ms"@,
    {
        "Sleep for ".to_owned().concat(u64_to_string(self.duration_ms).as_str()).concat(" ms")
    }
}

} // verus!
