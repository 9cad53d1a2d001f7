//! Workflow execution scenarios: ordering, skipping, failure, rollback.

use std::cell::RefCell;
use std::rc::Rc;

use barley::apt::AptInstall;
use barley::event::EventKind;
use barley::fs::WriteFile;
use barley::process::resolve_argv;
use barley::scheduler::{Scheduler, Status};
use barley::{
    Action, ActionError, ActionOutput, Id, Node, Operation, Probe, Runtime, RuntimeBuilder,
    RuntimeHandle, Scope,
};

/// What a scripted test action does when it runs.
#[derive(Clone)]
enum Behaviour {
    Succeed(Option<ActionOutput>),
    Fail(String, String),
    /// Read the output of the given node and publish what was seen.
    Relay(Id),
}

/// A scripted action that records every call in a shared trace.
struct Scripted {
    name: String,
    needs_run: bool,
    can_rollback: bool,
    behaviour: Behaviour,
    trace: Rc<RefCell<Vec<String>>>,
}

impl Scripted {
    fn new(name: &str, trace: &Rc<RefCell<Vec<String>>>) -> Scripted {
        Scripted {
            name: name.to_string(),
            needs_run: true,
            can_rollback: false,
            behaviour: Behaviour::Succeed(None),
            trace: trace.clone(),
        }
    }

    fn skipping(mut self) -> Scripted {
        self.needs_run = false;
        self
    }

    fn rollbackable(mut self) -> Scripted {
        self.can_rollback = true;
        self
    }

    fn producing(mut self, output: ActionOutput) -> Scripted {
        self.behaviour = Behaviour::Succeed(Some(output));
        self
    }

    fn failing(mut self, short: &str, long: &str) -> Scripted {
        self.behaviour = Behaviour::Fail(short.to_string(), long.to_string());
        self
    }

    fn relaying(mut self, from: Id) -> Scripted {
        self.behaviour = Behaviour::Relay(from);
        self
    }
}

impl Action for Scripted {
    fn probe(&self, _runtime: &RuntimeHandle) -> Result<Probe, ActionError> {
        self.trace.borrow_mut().push(format!("probe {}", self.name));
        Ok(Probe { needs_run: self.needs_run, can_rollback: self.can_rollback })
    }

    fn run(
        &self,
        runtime: &RuntimeHandle,
        operation: Operation,
    ) -> Result<Option<ActionOutput>, ActionError> {
        let op = match operation {
            Operation::Perform => "perform",
            Operation::Rollback => "rollback",
        };
        self.trace.borrow_mut().push(format!("{} {}", op, self.name));
        if matches!(operation, Operation::Rollback) {
            return Ok(None);
        }
        match &self.behaviour {
            Behaviour::Succeed(output) => Ok(output.clone()),
            Behaviour::Fail(short, long) => {
                Err(ActionError::ActionFailed(short.clone(), long.clone()))
            }
            Behaviour::Relay(from) => match runtime.get_output(*from) {
                Some(ActionOutput::String(s)) => Ok(Some(ActionOutput::String(format!(
                    "{} saw {}",
                    self.name, s
                )))),
                _ => Err(ActionError::NoActionReturn),
            },
        }
    }

    fn display_name(&self) -> String {
        self.name.clone()
    }
}

fn trace() -> Rc<RefCell<Vec<String>>> {
    Rc::new(RefCell::new(Vec::new()))
}

fn kinds_and_nodes(rt: &Runtime<Scripted>) -> Vec<(EventKind, usize)> {
    rt.events().iter().map(|e| (e.kind, e.node)).collect()
}

#[test]
fn linear_chain_runs_in_order() {
    let t = trace();
    let a = Node::new(Scripted::new("A", &t));
    let mut b = Node::new(Scripted::new("B", &t));
    b.depends_on(a.id());
    let mut c = Node::new(Scripted::new("C", &t));
    c.depends_on(b.id());

    let builder = RuntimeBuilder::new().add_action(a).add_action(b).add_action(c);
    let mut rt = builder.build();
    assert!(rt.perform().is_ok());

    let seen = kinds_and_nodes(&rt);
    assert_eq!(
        seen,
        vec![
            (EventKind::Started, 0),
            (EventKind::Finished, 0),
            (EventKind::Started, 1),
            (EventKind::Finished, 1),
            (EventKind::Started, 2),
            (EventKind::Finished, 2),
        ]
    );
    let calls = t.borrow().clone();
    assert_eq!(
        calls,
        vec!["probe A", "perform A", "probe B", "perform B", "probe C", "perform C"]
    );
}

#[test]
fn fan_out_shares_the_producer_output() {
    let t = trace();
    let a = Node::new(Scripted::new("A", &t).producing(ActionOutput::String("hello".to_string())));
    let a_id = a.id();
    let mut b = Node::new(Scripted::new("B", &t).relaying(a_id));
    b.depends_on(a_id);
    let mut c = Node::new(Scripted::new("C", &t).relaying(a_id));
    c.depends_on(a_id);

    let mut rt = RuntimeBuilder::new().add_action(a).add_action(b).add_action(c).build();
    assert!(rt.perform().is_ok());

    match rt.get_output(a_id) {
        Some(ActionOutput::String(s)) => assert_eq!(s, "hello"),
        other => panic!("unexpected output for A: {:?}", other),
    }
    assert_eq!(rt.events().len(), 6);
}

#[test]
fn dependents_see_the_published_value() {
    let t = trace();
    let a = Node::new(Scripted::new("A", &t).producing(ActionOutput::String("xyz".to_string())));
    let a_id = a.id();
    let mut b = Node::new(Scripted::new("B", &t).relaying(a_id));
    let b_id = b.id();
    b.depends_on(a_id);

    let mut rt = RuntimeBuilder::new().add_action(a).add_action(b).build();
    assert!(rt.perform().is_ok());
    match rt.get_output(b_id) {
        Some(ActionOutput::String(s)) => assert_eq!(s, "B saw xyz"),
        other => panic!("unexpected output for B: {:?}", other),
    }
}

#[test]
fn skip_suppresses_run_and_events() {
    let t = trace();
    let a = Node::new(Scripted::new("A", &t).skipping());
    let mut rt = RuntimeBuilder::new().add_action(a).build();
    assert!(rt.perform().is_ok());

    let seen = kinds_and_nodes(&rt);
    assert_eq!(seen, vec![(EventKind::Skipped, 0)]);
    assert_eq!(t.borrow().clone(), vec!["probe A"]);
    assert!(rt.hook_events().is_empty());
}

#[test]
fn failure_short_circuits_and_keeps_earlier_outputs() {
    let t = trace();
    let a = Node::new(Scripted::new("A", &t).producing(ActionOutput::Integer(1)));
    let a_id = a.id();
    let mut b = Node::new(Scripted::new("B", &t).failing("boom", "detail"));
    let b_id = b.id();
    b.depends_on(a_id);
    let mut c = Node::new(Scripted::new("C", &t));
    let c_id = c.id();
    c.depends_on(b_id);

    let mut rt = RuntimeBuilder::new().add_action(a).add_action(b).add_action(c).build();
    match rt.perform() {
        Err(ActionError::ActionFailed(short, long)) => {
            assert_eq!(short, "boom");
            assert_eq!(long, "detail");
        }
        other => panic!("expected the action failure, got {:?}", other),
    }

    // C never started.
    let seen = kinds_and_nodes(&rt);
    assert!(seen.contains(&(EventKind::Failed, 1)));
    assert!(!seen.iter().any(|(k, n)| *n == 2 && matches!(k, EventKind::Started)));
    // The store holds only A's output.
    assert!(rt.get_output(a_id).is_some());
    assert!(rt.get_output(b_id).is_none());
    assert!(rt.get_output(c_id).is_none());
}

#[test]
fn second_perform_changes_nothing() {
    let t = trace();
    let a = Node::new(Scripted::new("A", &t));
    let mut rt = RuntimeBuilder::new().add_action(a).build();
    assert!(rt.perform().is_ok());
    let first = rt.events();
    assert!(rt.perform().is_ok());
    assert_eq!(rt.events().len(), first.len());
    assert_eq!(t.borrow().len(), 2);
}

#[test]
fn rollback_gate_refuses_without_support() {
    let t = trace();
    let a = Node::new(Scripted::new("A", &t).rollbackable());
    let b = Node::new(Scripted::new("B", &t));
    let mut rt = RuntimeBuilder::new().add_action(a).add_action(b).build();
    assert!(rt.perform().is_ok());
    let before = rt.events().len();
    match rt.rollback() {
        Err(ActionError::InternalError(code)) => assert_eq!(code, "NO_ROLLBACK"),
        other => panic!("expected the rollback refusal, got {:?}", other),
    }
    // No rollback was begun on any node.
    assert_eq!(rt.events().len(), before);
}

#[test]
fn rollback_runs_dependents_first() {
    let t = trace();
    let a = Node::new(Scripted::new("A", &t).rollbackable());
    let a_id = a.id();
    let b = Node::new(Scripted::new("B", &t).rollbackable());
    let b_id = b.id();
    let mut c = Node::new(Scripted::new("C", &t).rollbackable());
    c.depends_on(a_id);
    c.depends_on(b_id);

    let mut rt = RuntimeBuilder::new().add_action(a).add_action(b).add_action(c).build();
    assert!(rt.perform().is_ok());
    assert!(rt.rollback().is_ok());

    let starts: Vec<usize> = rt
        .events()
        .iter()
        .filter(|e| matches!(e.kind, EventKind::RollbackStarted))
        .map(|e| e.node)
        .collect();
    assert_eq!(starts.len(), 3);
    // C (node 2) begins before A (0) and before B (1).
    let pos = |n: usize| starts.iter().position(|x| *x == n).unwrap();
    assert!(pos(2) < pos(0));
    assert!(pos(2) < pos(1));
}

#[test]
fn cycle_is_reported() {
    let t = trace();
    let mut a = Node::new(Scripted::new("A", &t));
    let mut b = Node::new(Scripted::new("B", &t));
    let a_id = a.id();
    let b_id = b.id();
    a.depends_on(b_id);
    b.depends_on(a_id);
    let mut rt = RuntimeBuilder::new().add_action(a).add_action(b).build();
    match rt.perform() {
        Err(ActionError::InternalError(code)) => assert_eq!(code, "CYCLE"),
        other => panic!("expected the cycle report, got {:?}", other),
    }
}

#[test]
fn probe_error_aborts_without_a_run() {
    struct BadProbe;
    impl Action for BadProbe {
        fn probe(&self, _runtime: &RuntimeHandle) -> Result<Probe, ActionError> {
            Err(ActionError::StateNotLoaded)
        }
        fn run(
            &self,
            _runtime: &RuntimeHandle,
            _operation: Operation,
        ) -> Result<Option<ActionOutput>, ActionError> {
            panic!("must not run");
        }
        fn display_name(&self) -> String {
            "bad".to_string()
        }
    }
    let a = Node::new(BadProbe);
    let mut rt = RuntimeBuilder::new().add_action(a).build();
    match rt.perform() {
        Err(ActionError::StateNotLoaded) => {}
        other => panic!("expected the probe error, got {:?}", other),
    }
}

#[test]
fn independent_nodes_may_overlap() {
    // Drive the scheduler directly: two nodes with no path between them
    // can both be in flight at once.
    let sched = &mut Scheduler::new(vec![Vec::new(), Vec::new()]);
    assert!(sched.can_start(0));
    assert!(sched.can_start(1));
    sched.begin_probe(0);
    assert!(sched.can_start(1));
    sched.begin_probe(1);
    assert!(matches!(sched.status(0), Status::Probing));
    assert!(matches!(sched.status(1), Status::Probing));
    sched.finish_probe(0, Ok(Probe { needs_run: true, can_rollback: false }));
    sched.finish_probe(1, Ok(Probe { needs_run: true, can_rollback: false }));
    assert!(matches!(sched.status(0), Status::Running));
    assert!(matches!(sched.status(1), Status::Running));
    sched.finish_run(1, Ok(None));
    sched.finish_run(0, Ok(None));
    assert!(sched.all_settled());
}

#[test]
fn dependent_waits_for_its_prerequisite() {
    // Node 1 depends on node 0: it cannot start until 0 settled.
    let sched = &mut Scheduler::new(vec![Vec::new(), vec![0usize]]);
    assert!(!sched.can_start(1));
    sched.begin_probe(0);
    assert!(!sched.can_start(1));
    sched.finish_probe(0, Ok(Probe { needs_run: true, can_rollback: false }));
    assert!(!sched.can_start(1));
    sched.finish_run(0, Ok(Some(ActionOutput::Boolean(true))));
    assert!(sched.can_start(1));
}

#[test]
fn no_start_after_a_failure() {
    let sched = &mut Scheduler::new(vec![Vec::new(), Vec::new()]);
    sched.begin_probe(0);
    sched.finish_probe(0, Err(ActionError::OperationNotSupported));
    assert!(!sched.can_start(1));
    assert!(matches!(sched.failure_value(), Some(ActionError::OperationNotSupported)));
}

#[test]
fn registry_values_reach_actions_and_callers() {
    struct ReadsState;
    impl Action for ReadsState {
        fn probe(&self, _runtime: &RuntimeHandle) -> Result<Probe, ActionError> {
            Ok(Probe { needs_run: true, can_rollback: false })
        }
        fn run(
            &self,
            runtime: &RuntimeHandle,
            _operation: Operation,
        ) -> Result<Option<ActionOutput>, ActionError> {
            match runtime.get_variable(&"greeting".to_string()) {
                Some(v) => Ok(Some(v)),
                None => Err(ActionError::StateNotLoaded),
            }
        }
        fn display_name(&self) -> String {
            String::new()
        }
    }
    let a = Node::new(ReadsState);
    let a_id = a.id();
    let mut builder = RuntimeBuilder::new().add_action(a);
    builder.set_variable("greeting".to_string(), ActionOutput::String("hi".to_string()));
    builder.add_state("config".to_string(), ActionOutput::Integer(3));
    let mut rt = builder.build();
    assert!(rt.perform().is_ok());
    match rt.get_output(a_id) {
        Some(ActionOutput::String(s)) => assert_eq!(s, "hi"),
        other => panic!("unexpected output: {:?}", other),
    }
    match rt.get_state(&"config".to_string()) {
        Some(ActionOutput::Integer(3)) => {}
        other => panic!("unexpected state: {:?}", other),
    }
    assert!(rt.get_variable(&"missing".to_string()).is_none());
}

#[test]
fn hook_events_follow_display_names() {
    let t = trace();
    let named = Node::new(Scripted::new("loud", &t));
    let silent = Node::new(Scripted::new("", &t));
    let mut rt = RuntimeBuilder::new().add_action(named).add_action(silent).build();
    assert!(rt.perform().is_ok());
    assert_eq!(rt.events().len(), 4);
    let hooks = rt.hook_events();
    assert_eq!(hooks.len(), 2);
    assert!(hooks.iter().all(|e| e.node == 0));
}


#[test]
fn dynamic_inputs_resolve_through_write_file() {
    /// Either a scripted producer, or an action that resolves a dynamic
    /// write-file content and publishes what would be written.
    enum EnvOrWriter {
        Env(Scripted),
        Writer(WriteFile),
    }
    impl Action for EnvOrWriter {
        fn probe(&self, runtime: &RuntimeHandle) -> Result<Probe, ActionError> {
            match self {
                EnvOrWriter::Env(s) => s.probe(runtime),
                EnvOrWriter::Writer(w) => Ok(w.probe()),
            }
        }
        fn run(
            &self,
            runtime: &RuntimeHandle,
            operation: Operation,
        ) -> Result<Option<ActionOutput>, ActionError> {
            match self {
                EnvOrWriter::Env(s) => s.run(runtime, operation),
                EnvOrWriter::Writer(w) => {
                    let content = w.resolve_content(runtime)?;
                    Ok(Some(ActionOutput::String(content)))
                }
            }
        }
        fn display_name(&self) -> String {
            match self {
                EnvOrWriter::Env(s) => s.display_name(),
                EnvOrWriter::Writer(w) => w.display_name(),
            }
        }
    }

    let t = trace();
    let env = Node::new(EnvOrWriter::Env(
        Scripted::new("env", &t).producing(ActionOutput::String("xyz".to_string())),
    ));
    let env_id = env.id();
    let mut writer = Node::new(EnvOrWriter::Writer(WriteFile::new_dynamic(
        "/tmp/f".to_string(),
        env_id,
    )));
    let writer_id = writer.id();
    writer.depends_on(env_id);

    let mut rt = RuntimeBuilder::new().add_action(env).add_action(writer).build();
    assert!(rt.perform().is_ok());
    match rt.get_output(writer_id) {
        Some(ActionOutput::String(s)) => assert_eq!(s, "xyz"),
        other => panic!("unexpected resolved content: {:?}", other),
    }
}

#[test]
fn wrong_output_type_is_reported() {
    /// Either a scripted producer, or an installation resolving its
    /// package names.
    enum DepOrInstall {
        Dep(Scripted),
        Install(AptInstall),
    }
    impl Action for DepOrInstall {
        fn probe(&self, runtime: &RuntimeHandle) -> Result<Probe, ActionError> {
            match self {
                DepOrInstall::Dep(s) => s.probe(runtime),
                DepOrInstall::Install(_) => Ok(Probe { needs_run: true, can_rollback: false }),
            }
        }
        fn run(
            &self,
            runtime: &RuntimeHandle,
            operation: Operation,
        ) -> Result<Option<ActionOutput>, ActionError> {
            match self {
                DepOrInstall::Dep(s) => s.run(runtime, operation),
                DepOrInstall::Install(i) => {
                    let names = i.get_package_names(runtime)?;
                    Ok(Some(ActionOutput::Integer(names.len() as i64)))
                }
            }
        }
        fn display_name(&self) -> String {
            String::new()
        }
    }

    let t = trace();
    // The prerequisite publishes an integer where a string is expected.
    let dep = Node::new(DepOrInstall::Dep(
        Scripted::new("dep", &t).producing(ActionOutput::Integer(1)),
    ));
    let dep_id = dep.id();
    let mut inst = Node::new(DepOrInstall::Install(AptInstall::new(vec![
        barley::Input::new_dynamic(dep_id),
    ])));
    inst.depends_on(dep_id);
    let mut rt = RuntimeBuilder::new().add_action(dep).add_action(inst).build();
    match rt.perform() {
        Err(ActionError::WrongOutputType) => {}
        other => panic!("expected the wrong-type report, got {:?}", other),
    }
}

#[test]
fn a_missing_dependency_output_is_reported() {
    struct RunsArgv;
    impl Action for RunsArgv {
        fn probe(&self, _runtime: &RuntimeHandle) -> Result<Probe, ActionError> {
            Ok(Probe { needs_run: true, can_rollback: false })
        }
        fn run(
            &self,
            runtime: &RuntimeHandle,
            _operation: Operation,
        ) -> Result<Option<ActionOutput>, ActionError> {
            // The named node exists but published nothing.
            let argv = vec![barley::Input::new_dynamic(Id::fresh())];
            resolve_argv(&argv, runtime).map(|_| None)
        }
        fn display_name(&self) -> String {
            String::new()
        }
    }

    let a = Node::new(RunsArgv);
    let mut rt = RuntimeBuilder::new().add_action(a).build();
    match rt.perform() {
        Err(ActionError::NoActionReturn) => {}
        other => panic!("expected the missing-output report, got {:?}", other),
    }
}


#[test]
fn a_scope_adds_its_nodes_in_order() {
    let t = trace();
    let mut scope = Scope::new();
    scope.add_action(Node::new(Scripted::new("one", &t)));
    scope.add_action(Node::new(Scripted::new("two", &t)));
    assert_eq!(scope.actions().len(), 2);

    let mut rt = RuntimeBuilder::new().add_scope(scope).build();
    assert!(rt.perform().is_ok());
    assert_eq!(rt.len(), 2);
    assert_eq!(
        t.borrow().clone(),
        vec!["probe one", "perform one", "probe two", "perform two"]
    );
}
