//! Package-manager actions: name resolution and decisions, without the
//! package manager itself.

use vstd::prelude::*;

use crate::error::ActionError;
use crate::input::{resolvable, resolves_to, Input};
use crate::output::{ActionOutput, OutputModel};
use crate::runtime::RuntimeHandle;
use crate::text::{contains_seq, str_contains};
use crate::Probe;

verus! {

/// Refresh the package index.
pub struct AptUpdate {
}

impl AptUpdate {
    /// A new index refresh.
    pub fn new() -> AptUpdate {
        AptUpdate {  }
    }

    /// An index refresh always needs to run and cannot be rolled back.
    pub fn probe(&self) -> (r: Probe)
        ensures
            r.needs_run == true,
            r.can_rollback == false,
    {
        Probe { needs_run: true, can_rollback: false }
    }

    /// The outcome of the refresh: success yields no output; a failure
    /// carries the captured standard error as context.
    pub fn outcome_for(success: bool, stderr: String) -> (r: Result<
        Option<ActionOutput>,
        ActionError,
    >)
        ensures
            success ==> r == Ok::<Option<ActionOutput>, ActionError>(None),
            !success ==> (r matches Err(e) && e matches ActionError::ActionFailed(short, long)
                && short@ == "`apt-get update` returned an error"@ && long@ == stderr@),
    {
        if success {
            Ok(None)
        } else {
            Err(ActionError::ActionFailed("`apt-get update` returned an error".to_owned(), stderr))
        }
    }

    /// The observer label.
    pub fn display_name(&self) -> (r: String)
        ensures
            r@ == "apt-get update"@,
    {
        "apt-get update".to_owned()
    }
}

impl Default for AptUpdate {
    /// The action carries no data; the default one is the action.
    fn default() -> (r: Self) {
        AptUpdate::new()
    }
}

/// Install packages, skipping the run when every package is already
/// installed.
pub struct AptInstall {
    /// The packages to install, literal or resolved at run time.
    pub packages: Vec<Input<String>>,
}

impl AptInstall {
    /// An installation of the given packages.
    pub fn new(packages: Vec<Input<String>>) -> (r: Self)
        ensures
            r.packages == packages,
    {
        AptInstall { packages }
    }

    /// Resolve the package names: literal entries stay, dynamic ones are
    /// replaced by the string output of the node they name.
    ///
    /// Succeeds exactly when every entry resolves; a dynamic entry
    /// without a published output fails with `NoActionReturn`, one whose
    /// output is not a string with `WrongOutputType`.
    pub fn get_package_names(&self, runtime: &RuntimeHandle) -> (r: Result<
        Vec<String>,
        ActionError,
    >)
        requires
            runtime.wf(),
        ensures
            (forall|i: int|
                0 <= i < self.packages@.len() ==> resolvable(
                    #[trigger] self.packages@[i],
                    *runtime,
                )) <==> r is Ok,
            r matches Ok(v) ==> v@.len() == self.packages@.len() && forall|i: int|
                0 <= i < self.packages@.len() ==> resolves_to(
                    #[trigger] self.packages@[i],
                    *runtime,
                    v@[i]@,
                ),
            r matches Err(e) ==> (e is NoActionReturn || e is WrongOutputType),
    {
        let n = self.packages.len();
        let mut names: Vec<String> = Vec::new();
        let mut k: usize = 0;
        while k < n
            invariant
                runtime.wf(),
                n == self.packages@.len(),
                k <= n,
                names@.len() == k,
                forall|i: int| 0 <= i < k ==> resolvable(#[trigger] self.packages@[i], *runtime),
                forall|i: int|
                    0 <= i < k ==> resolves_to(#[trigger] self.packages@[i], *runtime, names@[i]@),
            decreases n - k,
        {
            match &self.packages[k] {
                Input::Static(s) => {
                    names.push(s.clone());
                },
                Input::Dynamic(id) => {
                    match runtime.get_output(*id) {
                        None => {
                            proof {
                                assert(!resolvable(self.packages@[k as int], *runtime));
                            }
                            return Err(ActionError::NoActionReturn);
                        },
                        Some(out) => {
                            match out {
                                ActionOutput::String(s) => {
                                    names.push(s);
                                },
                                _ => {
                                    proof {
                                        assert(!resolvable(self.packages@[k as int], *runtime));
                                    }
                                    return Err(ActionError::WrongOutputType);
                                },
                            }
                        },
                    }
                },
            }
            k = k + 1;
        }
        Ok(names)
    }

    /// Whether a package query's report shows the package as installed.
    pub fn status_shows_installed(report: &str) -> (r: bool)
        ensures
            r == contains_seq(report@, "Status: install ok installed"@),
    {
        str_contains(report, "Status: install ok installed")
    }

    /// The probe decision over the per-package checks: the run is needed
    /// exactly when some package is not installed yet; rollback is not
    /// supported.
    pub fn probe_for(installed: &Vec<bool>) -> (r: Probe)
        ensures
            r.needs_run == !(forall|i: int| 0 <= i < installed@.len() ==> #[trigger] installed@[i]),
            r.can_rollback == false,
    {
        let n = installed.len();
        let mut k: usize = 0;
        while k < n
            invariant
                n == installed@.len(),
                k <= n,
                forall|i: int| 0 <= i < k ==> #[trigger] installed@[i],
            decreases n - k,
        {
            if !installed[k] {
                return Probe { needs_run: true, can_rollback: false };
            }
            k = k + 1;
        }
        Probe { needs_run: false, can_rollback: false }
    }

    /// The outcome of the installation: success yields no output; a
    /// failure carries the captured standard error as context.
    pub fn outcome_for(success: bool, stderr: String) -> (r: Result<
        Option<ActionOutput>,
        ActionError,
    >)
        ensures
            success ==> r == Ok::<Option<ActionOutput>, ActionError>(None),
            !success ==> (r matches Err(e) && e matches ActionError::ActionFailed(short, long)
                && short@ == "`apt-get install` returned an error"@ && long@ == stderr@),
    {
        if success {
            Ok(None)
        } else {
            Err(ActionError::ActionFailed("`apt-get install` returned an error".to_owned(), stderr))
        }
    }

    /// The observer label.
    pub fn display_name(&self) -> (r: String)
        ensures
            r@ == "apt-get install <packages>"@,
    {
        "apt-get install <packages>".to_owned()
    }
}

} // verus!
