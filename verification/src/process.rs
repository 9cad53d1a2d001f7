//! Process actions: argument resolution and outcome decisions, without
//! the spawning.

use vstd::prelude::*;

use crate::error::ActionError;
use crate::input::{resolvable, resolves_to, Input};
use crate::output::ActionOutput;
use crate::runtime::RuntimeHandle;
use crate::text::{join_spaces, spec_join_spaces};
use crate::Probe;

verus! {

/// Resolve an argument vector: literal arguments stay, dynamic ones are
/// replaced by the string output of the node they name.
///
/// Succeeds exactly when every argument resolves; a dynamic argument
/// without a published output fails with `NoActionReturn`, one whose
/// output is not a string with the string conversion error.
pub fn resolve_argv(argv: &Vec<Input<String>>, ctx: &RuntimeHandle) -> (r: Result<
    Vec<String>,
    ActionError,
>)
    requires
        ctx.wf(),
    ensures
        (forall|i: int| 0 <= i < argv@.len() ==> resolvable(#[trigger] argv@[i], *ctx)) <==> r
            is Ok,
        r matches Ok(v) ==> v@.len() == argv@.len() && forall|i: int|
            0 <= i < argv@.len() ==> resolves_to(#[trigger] argv@[i], *ctx, v@[i]@),
        r matches Err(e) ==> (e is NoActionReturn || (e matches
            ActionError::OutputConversionFailed(t) && t@ == "String"@)),
{
    let n = argv.len();
    let mut resolved: Vec<String> = Vec::new();
    let mut k: usize = 0;
    while k < n
        invariant
            ctx.wf(),
            n == argv@.len(),
            k <= n,
            resolved@.len() == k,
            forall|i: int| 0 <= i < k ==> resolvable(#[trigger] argv@[i], *ctx),
            forall|i: int| 0 <= i < k ==> resolves_to(#[trigger] argv@[i], *ctx, resolved@[i]@),
        decreases n - k,
    {
        match &argv[k] {
            Input::Static(value) => {
                resolved.push(value.clone());
            },
            Input::Dynamic(id) => {
                match ctx.get_output(*id) {
                    None => {
                        proof {
                            assert(!resolvable(argv@[k as int], *ctx));
                        }
                        return Err(ActionError::NoActionReturn);
                    },
                    Some(out) => {
                        match out.try_into_string() {
                            Ok(s) => {
                                resolved.push(s);
                            },
                            Err(e) => {
                                proof {
                                    assert(!resolvable(argv@[k as int], *ctx));
                                }
                                return Err(e);
                            },
                        }
                    },
                }
            },
        }
        k = k + 1;
    }
    Ok(resolved)
}

/// Run a command, with an optional check command deciding whether the
/// run is needed and an optional undo command enabling rollback.
pub struct Command {
    /// The command and its arguments.
    pub command: Vec<Input<String>>,
    /// A command whose success means there is nothing to do.
    pub check: Option<Vec<Input<String>>>,
    /// A command that undoes the action.
    pub undo: Option<Vec<Input<String>>>,
}

impl Command {
    /// A command without check or undo.
    pub fn new(command: Vec<Input<String>>) -> (r: Self)
        ensures
            r.command == command,
            r.check is None,
            r.undo is None,
    {
        Command { command, check: None, undo: None }
    }

    /// Attach a check command.
    pub fn check(self, check: Vec<Input<String>>) -> (r: Self)
        ensures
            r.command == self.command,
            r.check == Some(check),
            r.undo == self.undo,
    {
        Command { command: self.command, check: Some(check), undo: self.undo }
    }

    /// Attach an undo command.
    pub fn undo(self, undo: Vec<Input<String>>) -> (r: Self)
        ensures
            r.command == self.command,
            r.check == self.check,
            r.undo == Some(undo),
    {
        Command { command: self.command, check: self.check, undo: Some(undo) }
    }

    /// The probe decision: without a check command the action always
    /// runs; with one, it runs exactly when the check failed.  Rollback
    /// is available exactly when an undo command was attached.
    pub fn probe_for(&self, check_success: Option<bool>) -> (r: Probe)
        ensures
            r.needs_run == (match check_success {
                Option::None => true,
                Option::Some(s) => !s,
            }),
            r.can_rollback == (self.undo is Some),
    {
        let needs_run = match check_success {
            None => true,
            Some(s) => !s,
        };
        Probe { needs_run, can_rollback: self.undo.is_some() }
    }

    /// The outcome of a spawned command: success yields no output; a
    /// non-zero exit is the action's failure, naming the command.
    pub fn outcome_for(name: &String, success: bool) -> (r: Result<
        Option<ActionOutput>,
        ActionError,
    >)
        ensures
            success ==> r == Ok::<Option<ActionOutput>, ActionError>(None),
            !success ==> (r matches Err(e) && e matches ActionError::ActionFailed(short, long)
                && short@ == "Command exited with a non-zero status code"@ && long@
                == "Failed to run command: "@ + name@),
    {
        if success {
            Ok(None)
        } else {
            Err(
                ActionError::ActionFailed(
                    "Command exited with a non-zero status code".to_owned(),
                    "Failed to run command: ".to_owned().concat(name.as_str()),
                ),
            )
        }
    }

    /// The observer label: the leading word of the command, or a marker
    /// when it is dynamic or missing.
    pub fn display_name(&self) -> (r: String)
        ensures
            self.command@.len() == 0 ==> r@ == "Command: "@ + "<empty>"@,
            self.command@.len() > 0 ==> match self.command@[0] {
                Input::Static(value) => r@ == "Command: "@ + value@,
                Input::Dynamic(_) => r@ == "Command: "@ + "<dynamic>"@,
            },
    {
        let head = if self.command.len() > 0 {
            match &self.command[0] {
                Input::Static(value) => value.clone(),
                Input::Dynamic(_) => "<dynamic>".to_owned(),
            }
        } else {
            "<empty>".to_owned()
        };
        "Command: ".to_owned().concat(head.as_str())
    }
}

/// Run a command assembled from literal arguments; the output is not
/// captured.
pub struct Process {
    /// The command and its arguments.
    pub command: Vec<String>,
}

impl Process {
    /// A process running the given command line.
    pub fn new(command: Vec<String>) -> (r: Self)
        ensures
            r.command == command,
    {
        Process { command }
    }

    /// A process always needs to run and cannot be rolled back.
    pub fn probe(&self) -> (r: Probe)
        ensures
            r.needs_run == true,
            r.can_rollback == false,
    {
        Probe { needs_run: true, can_rollback: false }
    }

    /// The outcome of the spawned process: success yields no output, a
    /// failure is reported as such.
    pub fn outcome_for(success: bool) -> (r: Result<Option<ActionOutput>, ActionError>)
        ensures
            success ==> r == Ok::<Option<ActionOutput>, ActionError>(None),
            !success ==> (r matches Err(e) && e matches ActionError::ActionFailed(short, long)
                && short@ == "Process failed"@ && long@ == "Process failed"@),
    {
        if success {
            Ok(None)
        } else {
            Err(ActionError::ActionFailed("Process failed".to_owned(), "Process failed".to_owned()))
        }
    }

    /// The observer label: the command line behind a `Shell:` prefix.
    pub fn display_name(&self) -> (r: String)
        ensures
            r@ == "Shell: "@ + spec_join_spaces(self.command@),
    {
        "Shell: ".to_owned().concat(join_spaces(&self.command).as_str())
    }
}

/// Run a command assembled from literal arguments and publish its
/// standard output.
pub struct ProcessWithOutput {
    /// The command and its arguments.
    pub command: Vec<String>,
}

impl ProcessWithOutput {
    /// A process running the given command line.
    pub fn new(command: Vec<String>) -> (r: Self)
        ensures
            r.command == command,
    {
        ProcessWithOutput { command }
    }

    /// A process always needs to run and cannot be rolled back.
    pub fn probe(&self) -> (r: Probe)
        ensures
            r.needs_run == true,
            r.can_rollback == false,
    {
        Probe { needs_run: true, can_rollback: false }
    }

    /// The outcome of the spawned process: success publishes the
    /// captured standard output, a failure is reported as such.
    pub fn outcome_for(success: bool, stdout: String) -> (r: Result<
        Option<ActionOutput>,
        ActionError,
    >)
        ensures
            success ==> r == Ok::<Option<ActionOutput>, ActionError>(
                Some(ActionOutput::String(stdout)),
            ),
            !success ==> (r matches Err(e) && e matches ActionError::ActionFailed(short, long)
                && short@ == "Process failed"@ && long@ == "Process failed"@),
    {
        if success {
            Ok(Some(ActionOutput::String(stdout)))
        } else {
            Err(ActionError::ActionFailed("Process failed".to_owned(), "Process failed".to_owned()))
        }
    }

    /// The observer label: the command line behind a `Shell:` prefix.
    pub fn display_name(&self) -> (r: String)
        ensures
            r@ == "Shell: "@ + spec_join_spaces(self.command@),
    {
        "Shell: ".to_owned().concat(join_spaces(&self.command).as_str())
    }
}

} // verus!
