//! The value model, the bundled action decisions, and the manifest rules.

use barley::apt::{AptInstall, AptUpdate};
use barley::fs::{DeleteFile, FileR, FileW, ReadFile, TempFile, WriteFile};
use barley::process::{Command, Process, ProcessWithOutput};
use barley::schema::{valid_module_name, Config, ConfigError, Lockfile, ScriptConfig};
use barley::sync::Join;
use barley::text::{join_spaces, str_contains, u64_to_string};
use barley::time::Sleep;
use barley::{ActionError, ActionOutput, Id, Input, Operation, Probe};

#[test]
fn output_conversions_pass_matching_variants_through() {
    assert_eq!(
        ActionOutput::String("x".to_string()).try_into_string().unwrap(),
        "x".to_string()
    );
    assert_eq!(ActionOutput::Integer(-4).try_into_integer().unwrap(), -4);
    let bits = (2.5f64).to_bits();
    assert_eq!(ActionOutput::Float(bits).try_into_float_bits().unwrap(), bits);
    assert_eq!(f64::from_bits(bits), 2.5);
    assert!(ActionOutput::Boolean(true).try_into_boolean().unwrap());
}

#[test]
fn output_conversion_failure_names_the_target_type() {
    match ActionOutput::Integer(7).try_into_string() {
        Err(ActionError::OutputConversionFailed(t)) => assert_eq!(t, "String"),
        other => panic!("expected the conversion failure, got {:?}", other),
    }
    match ActionOutput::String("x".to_string()).try_into_integer() {
        Err(ActionError::OutputConversionFailed(t)) => assert_eq!(t, "i64"),
        other => panic!("expected the conversion failure, got {:?}", other),
    }
    match ActionOutput::Boolean(false).try_into_float_bits() {
        Err(ActionError::OutputConversionFailed(t)) => assert_eq!(t, "f64"),
        other => panic!("expected the conversion failure, got {:?}", other),
    }
    match ActionOutput::Integer(0).try_into_boolean() {
        Err(ActionError::OutputConversionFailed(t)) => assert_eq!(t, "bool"),
        other => panic!("expected the conversion failure, got {:?}", other),
    }
}

#[test]
fn error_messages_follow_the_variant() {
    let e = ActionError::ActionFailed("short text".to_string(), "long text".to_string());
    assert_eq!(e.message(), "short text");
    assert_eq!(
        ActionError::OutputConversionFailed("String".to_string()).message(),
        "Could not convert ActionOutput to String"
    );
    assert_eq!(
        ActionError::NoActionReturn.message(),
        "Dependency did not return a value"
    );
    assert_eq!(ActionError::OperationNotSupported.message(), "Operation not supported");
}

#[test]
fn inputs_distinguish_static_and_dynamic() {
    let s: Input<String> = Input::new_static("v".to_string());
    assert!(s.is_static());
    assert!(!s.is_dynamic());
    assert_eq!(s.static_value().unwrap(), "v");
    assert!(s.dynamic().is_none());

    let id = Id::fresh();
    let d: Input<String> = Input::new_dynamic(id);
    assert!(d.is_dynamic());
    assert!(!d.is_static());
    assert!(d.static_value().is_none());
    assert_eq!(d.dynamic().unwrap(), id);
}

#[test]
fn probe_defaults_to_a_needed_run() {
    let p = Probe::default();
    assert!(p.needs_run);
    assert!(!p.can_rollback);
}

#[test]
fn ids_render_as_canonical_uuid_text() {
    let id = Id::fresh();
    let text = id.text();
    assert_eq!(text.len(), 36);
    let bytes = text.as_bytes();
    assert_eq!(bytes[8], b'-');
    assert_eq!(bytes[13], b'-');
    assert_eq!(bytes[18], b'-');
    assert_eq!(bytes[23], b'-');
    // The text is stable for the identifier's lifetime.
    assert_eq!(id.text(), text);
}

#[test]
fn sleep() {
    let s = Sleep::new(100);
    assert_eq!(s.duration_ms, 100);
    let first = s.probe();
    let second = s.probe();
    assert_eq!(first, second);
    assert!(first.needs_run);
    assert_eq!(s.display_name(), "Sleep for 100 ms");
}

#[test]
fn decimal_rendering_is_exact() {
    assert_eq!(u64_to_string(0), "0");
    assert_eq!(u64_to_string(7), "7");
    assert_eq!(u64_to_string(10), "10");
    assert_eq!(u64_to_string(105), "105");
    assert_eq!(u64_to_string(98760), "98760");
}

#[test]
fn join_is_silent_and_effect_free() {
    let j = Join::new();
    let p = j.probe();
    assert!(!p.needs_run);
    assert!(!p.can_rollback);
    assert_eq!(j.probe(), p);
    assert!(matches!(j.run(Operation::Perform), Ok(None)));
    assert!(matches!(j.run(Operation::Rollback), Ok(None)));
    assert!(j.display_name().is_empty());
}

#[test]
fn file_actions_carry_their_paths() {
    let w = WriteFile::new_static("/tmp/out".to_string(), "data".to_string());
    assert_eq!(w.display_name(), "Write file /tmp/out");
    assert!(w.probe().needs_run);

    let r = ReadFile::new("/etc/hosts".to_string());
    assert_eq!(r.display_name(), "Read file /etc/hosts");
    match ReadFile::output_for("body".to_string()) {
        Some(ActionOutput::String(s)) => assert_eq!(s, "body"),
        other => panic!("unexpected output: {:?}", other),
    }

    let d = DeleteFile::new("/tmp/gone".to_string());
    assert!(d.probe_for(true).needs_run);
    assert!(!d.probe_for(false).needs_run);

    let fw = FileW::new("/tmp/a".to_string(), "abc".to_string());
    assert!(fw.probe_for(false).needs_run);
    assert!(fw.probe_for(false).can_rollback);
    assert!(!fw.probe_for(true).needs_run);

    let tf = TempFile::new("work/scratch".to_string());
    assert_eq!(tf.path(), "/tmp/work/scratch");
    assert!(tf.probe_for(false).needs_run);

    let fr = FileR::new("/tmp/b".to_string());
    assert!(fr.probe_for(false).needs_run);
    assert!(fr.probe_for(false).can_rollback);
}

#[test]
fn command_probe_and_outcome_follow_the_checks() {
    let c = Command::new(vec![Input::new_static("ls".to_string())]);
    let p = c.probe_for(None);
    assert!(p.needs_run);
    assert!(!p.can_rollback);

    let c2 = c.check(vec![Input::new_static("test".to_string())]).undo(vec![Input::new_static(
        "rm".to_string(),
    )]);
    assert!(!c2.probe_for(Some(true)).needs_run);
    assert!(c2.probe_for(Some(false)).needs_run);
    assert!(c2.probe_for(Some(false)).can_rollback);
    assert_eq!(c2.display_name(), "Command: ls");

    assert!(matches!(Command::outcome_for(&"ls".to_string(), true), Ok(None)));
    match Command::outcome_for(&"ls".to_string(), false) {
        Err(ActionError::ActionFailed(short, long)) => {
            assert_eq!(short, "Command exited with a non-zero status code");
            assert_eq!(long, "Failed to run command: ls");
        }
        other => panic!("unexpected outcome: {:?}", other),
    }
}

#[test]
fn process_outcomes_report_success_and_failure() {
    let p = Process::new(vec!["echo".to_string(), "hi".to_string()]);
    assert_eq!(p.display_name(), "Shell: echo hi");
    assert!(p.probe().needs_run);
    assert!(matches!(Process::outcome_for(true), Ok(None)));
    assert!(matches!(
        Process::outcome_for(false),
        Err(ActionError::ActionFailed(_, _))
    ));

    let po = ProcessWithOutput::new(vec!["uname".to_string()]);
    assert_eq!(po.display_name(), "Shell: uname");
    match ProcessWithOutput::outcome_for(true, "Linux\n".to_string()) {
        Ok(Some(ActionOutput::String(s))) => assert_eq!(s, "Linux\n"),
        other => panic!("unexpected outcome: {:?}", other),
    }
}

#[test]
fn apt_decisions_follow_the_package_checks() {
    let u = AptUpdate::new();
    assert!(u.probe().needs_run);
    assert_eq!(u.display_name(), "apt-get update");
    match AptUpdate::outcome_for(false, "broken index".to_string()) {
        Err(ActionError::ActionFailed(short, long)) => {
            assert_eq!(short, "`apt-get update` returned an error");
            assert_eq!(long, "broken index");
        }
        other => panic!("unexpected outcome: {:?}", other),
    }

    let report = "Package: curl\nStatus: install ok installed\nPriority: optional\n";
    assert!(AptInstall::status_shows_installed(report));
    assert!(!AptInstall::status_shows_installed("Package: curl\nStatus: deinstall\n"));

    assert!(!AptInstall::probe_for(&vec![true, true]).needs_run);
    assert!(AptInstall::probe_for(&vec![true, false]).needs_run);
    assert!(!AptInstall::probe_for(&Vec::new()).needs_run);

    let i = AptInstall::new(vec![Input::new_static("curl".to_string())]);
    assert_eq!(i.display_name(), "apt-get install <packages>");
}

#[test]
fn substring_search_is_exact() {
    assert!(str_contains("workflow", "flow"));
    assert!(str_contains("workflow", ""));
    assert!(str_contains("aaa", "aaa"));
    assert!(!str_contains("aaa", "aaaa"));
    assert!(!str_contains("workflow", "Flow"));
    assert!(str_contains("abcabd", "abd"));
}

#[test]
fn joining_with_spaces_matches_the_parts() {
    assert_eq!(join_spaces(&Vec::new()), "");
    assert_eq!(join_spaces(&vec!["one".to_string()]), "one");
    assert_eq!(
        join_spaces(&vec!["a".to_string(), "b".to_string(), "c".to_string()]),
        "a b c"
    );
}

#[test]
fn module_names_follow_the_naming_rule() {
    assert!(valid_module_name("abc"));
    assert!(valid_module_name("A1-b_c"));
    assert!(valid_module_name("z"));
    assert!(!valid_module_name(""));
    assert!(!valid_module_name("9abc"));
    assert!(!valid_module_name("-abc"));
    assert!(!valid_module_name("a b"));
    assert!(!valid_module_name("añejo"));
}

#[test]
fn adding_a_module_declares_it_once() {
    let config = Config {
        script: Some(ScriptConfig { name: "demo".to_string(), version: "0.1.0".to_string() }),
        library: None,
        dependencies: Vec::new(),
    };
    let (config, cargo) = config.add_module("http".to_string()).unwrap();
    assert_eq!(cargo, "blyx-http");
    assert_eq!(config.dependencies.len(), 1);
    assert_eq!(config.dependencies[0].0, "http");
    assert_eq!(config.dependencies[0].1, "latest");

    match config.add_module("http".to_string()) {
        Err(e) => assert_eq!(e, ConfigError::ModuleExists),
        other => panic!("expected the duplicate refusal, got {:?}", other),
    }
}

#[test]
fn libraries_take_no_modules() {
    let config = Config {
        script: None,
        library: Some(barley::schema::LibraryConfig {
            name: "lib".to_string(),
            version: "0.1.0".to_string(),
        }),
        dependencies: Vec::new(),
    };
    match config.add_module("http".to_string()) {
        Err(e) => assert_eq!(e, ConfigError::ProjectIsLibrary),
        other => panic!("expected the library refusal, got {:?}", other),
    }
}

#[test]
fn the_default_lockfile_is_empty() {
    let lock = Lockfile::default();
    assert!(lock.dependencies.is_empty());
}
