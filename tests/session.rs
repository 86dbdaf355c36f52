use std::collections::HashMap;

use stdx_check::document::{Table, Value};
use stdx_check::manifest::{get_dependencies, insert_stdx_dep, Args, StdxOpt};
use stdx_check::session::{
    build, event_of, exit_outcome, mode_of, plan, Action, Event, File, Mode, RunError,
    Session, Stage, Step, Subcommand,
};

const MANIFEST: &str = "dependencies = { foo = \"1.0\" }";
const CHANGED: &str = "dependencies = { foo = \"1.0\", stdx = \"0.117.0\" }";
const LOCK: &str = "[[package]]\nname = \"foo\"\n";

fn project() -> HashMap<File, Vec<u8>> {
    let mut fs = HashMap::new();
    fs.insert(File::Manifest, MANIFEST.as_bytes().to_vec());
    fs.insert(File::Lock, LOCK.as_bytes().to_vec());
    fs
}

/// Drives a run over an in-memory project. `exits` gives the exit code of
/// each build tool invocation in turn; the tool rewrites the lock file.
fn drive(mode: Mode, fs: &mut HashMap<File, Vec<u8>>, exits: &[i32]) -> (Session, Vec<Action>) {
    let mut session = Session::new(mode);
    let mut actions = Vec::new();
    let mut exits = exits.iter();
    loop {
        let action = session.action();
        actions.push(action);
        let outcome = match action {
            Action::Finish => break,
            Action::Rename { from, to } => match fs.remove(&from) {
                Some(c) => {
                    fs.insert(to, c);
                    Ok(())
                }
                None => Err(RunError::Io),
            },
            Action::WriteManifest => {
                fs.insert(File::Manifest, CHANGED.as_bytes().to_vec());
                Ok(())
            }
            Action::Perform(Step::Run(_)) => {
                fs.insert(File::Lock, b"[[package]]\nname = \"stdx\"\n".to_vec());
                exit_outcome(true, exits.next().copied())
            }
            Action::Perform(Step::Scan) => Ok(()),
            Action::Restore { from, to } => match fs.get(&from).cloned() {
                Some(c) => {
                    fs.insert(to, c);
                    Ok(())
                }
                None => Err(RunError::Io),
            },
        };
        session.step(event_of(outcome));
        assert!(actions.len() < 100);
    }
    (session, actions)
}

#[test]
fn successful_run_restores_manifest_and_lock() {
    let mut fs = project();
    let (session, actions) = drive(Mode::Test, &mut fs, &[0]);
    let p = session.progress();
    assert_eq!(p.stage, Stage::Finished);
    assert_eq!(p.error, None);
    assert_eq!(fs[&File::Manifest], MANIFEST.as_bytes());
    assert_eq!(fs[&File::Lock], LOCK.as_bytes());
    assert_eq!(
        actions,
        vec![
            Action::Rename { from: File::Manifest, to: File::ManifestBackup },
            Action::WriteManifest,
            Action::Rename { from: File::Lock, to: File::LockBackup },
            Action::Perform(Step::Run(Subcommand::Test)),
            Action::Restore { from: File::LockBackup, to: File::Lock },
            Action::Restore { from: File::ManifestBackup, to: File::Manifest },
            Action::Finish,
        ]
    );
}

#[test]
fn failed_build_is_reported_and_files_restored() {
    let mut fs = project();
    let (session, actions) = drive(Mode::Both, &mut fs, &[101]);
    let p = session.progress();
    assert_eq!(p.stage, Stage::Finished);
    assert_eq!(p.error, Some(RunError::Build(Some(101))));
    assert!(!p.lock_restore_failed && !p.manifest_restore_failed);
    assert_eq!(fs[&File::Manifest], MANIFEST.as_bytes());
    assert_eq!(fs[&File::Lock], LOCK.as_bytes());
    assert!(!actions.contains(&Action::Perform(Step::Scan)));
}

#[test]
fn missing_lock_file_restores_manifest_only() {
    let mut fs = project();
    fs.remove(&File::Lock);
    let (session, _) = drive(Mode::Dupes, &mut fs, &[0]);
    let p = session.progress();
    assert_eq!(p.error, Some(RunError::Io));
    assert_eq!(fs[&File::Manifest], MANIFEST.as_bytes());
    assert!(!fs.contains_key(&File::Lock));
}

#[test]
fn missing_manifest_touches_nothing() {
    let mut fs = project();
    fs.remove(&File::Manifest);
    let (session, actions) = drive(Mode::Test, &mut fs, &[0]);
    assert_eq!(session.progress().error, Some(RunError::Io));
    assert_eq!(actions.len(), 2);
    assert_eq!(fs.len(), 1);
}

#[test]
fn nothing_selected_is_a_no_op() {
    let mut fs = project();
    let (session, actions) = drive(Mode::Nothing, &mut fs, &[]);
    assert_eq!(actions, vec![Action::Finish]);
    assert_eq!(session.progress().error, None);
    assert_eq!(fs, project());
}

#[test]
fn dupes_runs_build_then_scan() {
    let mut fs = project();
    let (_, actions) = drive(Mode::Dupes, &mut fs, &[0]);
    assert_eq!(actions[3], Action::Perform(Step::Run(Subcommand::Build)));
    assert_eq!(actions[4], Action::Perform(Step::Scan));
}

#[test]
fn modes_from_command_line() {
    let args = |t: bool, d: bool| Args { cmd_test: t, cmd_dupes: d, flag_stdxgit: None, flag_stdxversion: None };
    assert_eq!(mode_of(&args(true, false)), Mode::Test);
    assert_eq!(mode_of(&args(false, true)), Mode::Dupes);
    assert_eq!(mode_of(&args(true, true)), Mode::Both);
    assert_eq!(mode_of(&args(false, false)), Mode::Nothing);
    assert_eq!(plan(Mode::Both).len(), 3);
}

#[test]
fn exit_codes_map_to_outcomes() {
    assert_eq!(exit_outcome(true, Some(0)), Ok(()));
    assert_eq!(exit_outcome(true, Some(1)), Err(RunError::Build(Some(1))));
    assert_eq!(exit_outcome(true, None), Err(RunError::Build(None)));
    assert_eq!(exit_outcome(false, None), Err(RunError::Launch));
    assert_eq!(event_of(Err(RunError::Lock)), Event::Failed(RunError::Lock));
}

#[test]
fn invocations_name_tool_and_subcommand() {
    let cargo = "/usr/bin/cargo".to_string();
    let t = stdx_check::session::test(&cargo);
    assert_eq!(t.tool, cargo);
    assert_eq!(t.subcommand.word(), "test");
    assert_eq!(build(&cargo).subcommand, Subcommand::Build);
    assert_eq!(File::Manifest.path(), "Cargo.toml");
    assert_eq!(File::LockBackup.path(), "Cargo.lock.bk");
}

#[test]
fn stdx_injected_then_manifest_restored_exactly() {
    let mut doc = Table {
        entries: vec![(
            "dependencies".to_string(),
            Value::Table(Table { entries: vec![("foo".to_string(), Value::Str("1.0".to_string()))] }),
        )],
    };
    assert_eq!(insert_stdx_dep(&mut doc, &StdxOpt::Version("0.117.0".to_string())), Ok(()));
    let deps = get_dependencies(&doc).unwrap();
    let names: Vec<&str> = deps.entries.iter().map(|(k, _)| k.as_str()).collect();
    assert_eq!(names, vec!["foo", "stdx"]);
    match &deps.entries[1].1 {
        Value::Str(v) => assert_eq!(v, "0.117.0"),
        other => panic!("not a version: {:?}", other),
    }

    let mut fs = project();
    let (session, _) = drive(Mode::Test, &mut fs, &[0]);
    assert_eq!(session.progress().error, None);
    assert_eq!(String::from_utf8(fs[&File::Manifest].clone()).unwrap(), "dependencies = { foo = \"1.0\" }");
    assert!(!fs.contains_key(&File::LockBackup) || fs[&File::LockBackup] == LOCK.as_bytes());
}

#[test]
fn failed_lock_restore_is_recorded_and_manifest_still_restored() {
    let mut fs = project();
    let mut session = Session::new(Mode::Test);
    let mut restores = 0;
    loop {
        let action = session.action();
        let outcome = match action {
            Action::Finish => break,
            Action::Rename { from, to } => {
                let c = fs.remove(&from).unwrap();
                fs.insert(to, c);
                Ok(())
            }
            Action::WriteManifest => {
                fs.insert(File::Manifest, CHANGED.as_bytes().to_vec());
                Ok(())
            }
            Action::Perform(_) => exit_outcome(true, Some(0)),
            Action::Restore { from, to } => {
                restores += 1;
                if to == File::Lock {
                    Err(RunError::Io)
                } else {
                    let c = fs[&from].clone();
                    fs.insert(to, c);
                    Ok(())
                }
            }
        };
        session.step(event_of(outcome));
    }
    let p = session.progress();
    assert_eq!(restores, 2);
    assert!(p.lock_restore_failed);
    assert!(!p.manifest_restore_failed);
    assert_eq!(p.error, None);
    assert_eq!(fs[&File::Manifest], MANIFEST.as_bytes());
}

#[test]
fn paths_and_words_are_fixed() {
    assert_eq!(File::Manifest.path(), "Cargo.toml");
    assert_eq!(File::ManifestBackup.path(), "Cargo.toml.bk");
    assert_eq!(File::Lock.path(), "Cargo.lock");
    assert_eq!(File::LockBackup.path(), "Cargo.lock.bk");
    assert_eq!(Subcommand::Test.word(), "test");
    assert_eq!(Subcommand::Build.word(), "build");
}

#[test]
fn missing_lock_file_runs_no_operation() {
    let mut fs = project();
    fs.remove(&File::Lock);
    let (_, actions) = drive(Mode::Both, &mut fs, &[0, 0]);
    assert!(actions.iter().all(|a| !matches!(a, Action::Perform(_))));
    assert_eq!(fs[&File::Manifest], MANIFEST.as_bytes());
    assert!(!fs.contains_key(&File::Lock));
}
