//! The orchestrator: sets the manifest and the lock file aside, writes the
//! changed manifest, runs the selected operations, and restores both files on
//! every path out.
//!
//! The decisions are a state machine. A driver asks for the next `Action`,
//! performs it, and hands back what came of it as an `Event`.
use vstd::prelude::*;

use crate::manifest::Args;

verus! {

/// The files that a run touches.
#[derive(Clone, Copy, Debug, PartialEq, Eq, Hash, Structural)]
pub enum File {
    Manifest,
    ManifestBackup,
    Lock,
    LockBackup,
}

impl File {
    /// The file's path, relative to the project directory.
    pub fn path(&self) -> (r: &'static str)
        ensures
            r@ == (match self {
                File::Manifest => "Cargo.toml"@,
                File::ManifestBackup => "Cargo.toml.bk"@,
                File::Lock => "Cargo.lock"@,
                File::LockBackup => "Cargo.lock.bk"@,
            }),
    {
        proof {
            reveal_strlit("Cargo.toml");
            reveal_strlit("Cargo.toml.bk");
            reveal_strlit("Cargo.lock");
            reveal_strlit("Cargo.lock.bk");
        }
        match self {
            File::Manifest => "Cargo.toml",
            File::ManifestBackup => "Cargo.toml.bk",
            File::Lock => "Cargo.lock",
            File::LockBackup => "Cargo.lock.bk",
        }
    }
}

/// A subcommand of the build tool.
#[derive(Clone, Copy, Debug, PartialEq, Eq, Structural)]
pub enum Subcommand {
    Test,
    Build,
}

impl Subcommand {
    /// The word that selects it on the build tool's command line.
    pub fn word(&self) -> (r: &'static str)
        ensures
            r@ == (match self {
                Subcommand::Test => "test"@,
                Subcommand::Build => "build"@,
            }),
    {
        proof {
            reveal_strlit("test");
            reveal_strlit("build");
        }
        match self {
            Subcommand::Test => "test",
            Subcommand::Build => "build",
        }
    }
}

/// One operation of a run.
#[derive(Clone, Copy, Debug, PartialEq, Eq, Structural)]
pub enum Step {
    /// Run the build tool with a subcommand.
    Run(Subcommand),
    /// Read the lock file and report the packages it lists more than once.
    Scan,
}

/// Which operations a run performs.
#[derive(Clone, Copy, Debug, PartialEq, Eq, Structural)]
pub enum Mode {
    Nothing,
    Test,
    Dupes,
    Both,
}

/// Why a run failed.
#[derive(Clone, Copy, Debug, PartialEq, Eq, Structural)]
pub enum RunError {
    /// A file could not be renamed, written or read.
    Io,
    /// The build tool could not be started.
    Launch,
    /// The build tool exited with failure: its exit code, or none where a
    /// signal ended it.
    Build(Option<i32>),
    /// The lock file could not be read as a document with a package list.
    Lock,
}

/// Where a run stands.
#[derive(Clone, Copy, Debug, PartialEq, Eq, Structural)]
pub enum Stage {
    /// Nothing has been touched.
    Start,
    /// The manifest has been renamed to its backup.
    ManifestAside,
    /// The changed manifest has been written.
    Written,
    /// The lock file has been renamed to its backup; the steps of the plan
    /// before this index are done.
    Operating(usize),
    /// The lock file is to be copied back from its backup.
    RestoringLock,
    /// The manifest is to be copied back from its backup.
    RestoringManifest,
    /// The run is over.
    Finished,
}

/// The state of a run besides its plan.
#[derive(Clone, Copy, Debug, PartialEq, Eq, Structural)]
pub struct Progress {
    pub stage: Stage,
    /// The first failure, if any.
    pub error: Option<RunError>,
    /// Copying the lock file back failed.
    pub lock_restore_failed: bool,
    /// Copying the manifest back failed.
    pub manifest_restore_failed: bool,
}

/// What the driver is asked to do next.
#[derive(Clone, Copy, Debug, PartialEq, Eq, Structural)]
pub enum Action {
    /// Rename a file; fails, changing nothing, if it cannot.
    Rename { from: File, to: File },
    /// Write the changed manifest.
    WriteManifest,
    /// Perform a step of the plan.
    Perform(Step),
    /// Copy a backup back over the original.
    Restore { from: File, to: File },
    /// Nothing is left to do.
    Finish,
}

/// What came of an action.
#[derive(Clone, Copy, Debug, PartialEq, Eq, Structural)]
pub enum Event {
    Done,
    Failed(RunError),
}

/// The operations that a mode selects.
pub open spec fn plan_of(mode: Mode) -> Seq<Step> {
    match mode {
        Mode::Nothing => seq![],
        Mode::Test => seq![Step::Run(Subcommand::Test)],
        Mode::Dupes => seq![Step::Run(Subcommand::Build), Step::Scan],
        Mode::Both => seq![Step::Run(Subcommand::Test), Step::Run(Subcommand::Build), Step::Scan],
    }
}

/// The mode that the command line selects: each subcommand named alone, both,
/// or neither.
pub fn mode_of(args: &Args) -> (r: Mode)
    ensures
        r == (if args.cmd_test && args.cmd_dupes {
            Mode::Both
        } else if args.cmd_test {
            Mode::Test
        } else if args.cmd_dupes {
            Mode::Dupes
        } else {
            Mode::Nothing
        }),
{
    if args.cmd_test && args.cmd_dupes {
        Mode::Both
    } else if args.cmd_test {
        Mode::Test
    } else if args.cmd_dupes {
        Mode::Dupes
    } else {
        Mode::Nothing
    }
}

/// The operations that a mode selects, in the order they run.
pub fn plan(mode: Mode) -> (r: Vec<Step>)
    ensures
        r@ == plan_of(mode),
{
    let r = match mode {
        Mode::Nothing => vec![],
        Mode::Test => vec![Step::Run(Subcommand::Test)],
        Mode::Dupes => vec![Step::Run(Subcommand::Build), Step::Scan],
        Mode::Both => vec![Step::Run(Subcommand::Test), Step::Run(Subcommand::Build), Step::Scan],
    };
    assert(r@ =~= plan_of(mode));
    r
}

/// The state in which a run begins.
pub open spec fn initial() -> Progress {
    Progress {
        stage: Stage::Start,
        error: None,
        lock_restore_failed: false,
        manifest_restore_failed: false,
    }
}

/// The action that a run asks for in state `p`.
pub open spec fn action_of(plan: Seq<Step>, p: Progress) -> Action {
    match p.stage {
        Stage::Start => if plan.len() == 0 {
            Action::Finish
        } else {
            Action::Rename { from: File::Manifest, to: File::ManifestBackup }
        },
        Stage::ManifestAside => Action::WriteManifest,
        Stage::Written => Action::Rename { from: File::Lock, to: File::LockBackup },
        Stage::Operating(i) => if i < plan.len() {
            Action::Perform(plan[i as int])
        } else {
            Action::Restore { from: File::LockBackup, to: File::Lock }
        },
        Stage::RestoringLock => Action::Restore { from: File::LockBackup, to: File::Lock },
        Stage::RestoringManifest => Action::Restore { from: File::ManifestBackup, to: File::Manifest },
        Stage::Finished => Action::Finish,
    }
}

/// `p` with `e` recorded, unless a failure was recorded before.
pub open spec fn with_error(p: Progress, e: RunError) -> Progress {
    Progress { error: if p.error is None { Some(e) } else { p.error }, ..p }
}

/// The state after the action of state `p` came to `ev`.
pub open spec fn next(plan: Seq<Step>, p: Progress, ev: Event) -> Progress {
    match p.stage {
        Stage::Start => if plan.len() == 0 {
            p
        } else {
            match ev {
                Event::Done => Progress { stage: Stage::ManifestAside, ..p },
                Event::Failed(e) => Progress { stage: Stage::Finished, ..with_error(p, e) },
            }
        },
        Stage::ManifestAside => match ev {
            Event::Done => Progress { stage: Stage::Written, ..p },
            Event::Failed(e) => Progress { stage: Stage::RestoringManifest, ..with_error(p, e) },
        },
        Stage::Written => match ev {
            Event::Done => Progress { stage: Stage::Operating(0), ..p },
            Event::Failed(e) => Progress { stage: Stage::RestoringManifest, ..with_error(p, e) },
        },
        Stage::Operating(i) => if i < plan.len() {
            match ev {
                Event::Done => Progress { stage: Stage::Operating((i + 1) as usize), ..p },
                Event::Failed(e) => Progress { stage: Stage::RestoringLock, ..with_error(p, e) },
            }
        } else {
            Progress {
                stage: Stage::RestoringManifest,
                lock_restore_failed: ev is Failed,
                ..p
            }
        },
        Stage::RestoringLock => Progress {
            stage: Stage::RestoringManifest,
            lock_restore_failed: ev is Failed,
            ..p
        },
        Stage::RestoringManifest => Progress {
            stage: Stage::Finished,
            manifest_restore_failed: ev is Failed,
            ..p
        },
        Stage::Finished => p,
    }
}

/// One invocation of the build tool.
#[derive(Debug)]
pub struct Invocation {
    /// The path of the build tool.
    pub tool: String,
    pub subcommand: Subcommand,
}

/// The invocation of `tool` with `sub`.
pub fn invocation(tool: &String, sub: Subcommand) -> (r: Invocation)
    ensures
        r.tool@ == tool@,
        r.subcommand == sub,
{
    Invocation { tool: tool.clone(), subcommand: sub }
}

/// The invocation that runs the project's tests.
pub fn test(cargo: &String) -> (r: Invocation)
    ensures
        r.tool@ == cargo@,
        r.subcommand == Subcommand::Test,
{
    invocation(cargo, Subcommand::Test)
}

/// The invocation that builds the project.
pub fn build(cargo: &String) -> (r: Invocation)
    ensures
        r.tool@ == cargo@,
        r.subcommand == Subcommand::Build,
{
    invocation(cargo, Subcommand::Build)
}

/// What an invocation came to: `Launch` where the tool could not be started,
/// success on exit code zero, `Build` with the exit code on any other exit
/// (or on none, where a signal ended it).
pub fn exit_outcome(launched: bool, code: Option<i32>) -> (r: Result<(), RunError>)
    ensures
        r == (if !launched {
            Err(RunError::Launch)
        } else if code == Some(0i32) {
            Ok(())
        } else {
            Err(RunError::Build(code))
        }),
{
    if !launched {
        Err(RunError::Launch)
    } else {
        match code {
            Some(0) => Ok(()),
            _ => Err(RunError::Build(code)),
        }
    }
}

/// The event that an outcome hands back to a run.
pub fn event_of(outcome: Result<(), RunError>) -> (r: Event)
    ensures
        r == (match outcome {
            Ok(()) => Event::Done,
            Err(e) => Event::Failed(e),
        }),
{
    match outcome {
        Ok(()) => Event::Done,
        Err(e) => Event::Failed(e),
    }
}

/// A run: its plan and where it stands.
pub struct Session {
    plan: Vec<Step>,
    progress: Progress,
}

impl Session {
    /// The operations of the run.
    pub closed spec fn plan_view(&self) -> Seq<Step> {
        self.plan@
    }

    /// Where the run stands.
    pub closed spec fn progress_view(&self) -> Progress {
        self.progress
    }

    /// A run of the operations that `mode` selects, before anything is touched.
    pub fn new(mode: Mode) -> (r: Session)
        ensures
            r.plan_view() == plan_of(mode),
            r.progress_view() == initial(),
    {
        Session { plan: plan(mode), progress: Progress { stage: Stage::Start, error: None, lock_restore_failed: false, manifest_restore_failed: false } }
    }

    /// Where the run stands.
    pub fn progress(&self) -> (r: Progress)
        ensures
            r == self.progress_view(),
    {
        self.progress
    }

    /// What the driver is to do next.
    pub fn action(&self) -> (r: Action)
        ensures
            r == action_of(self.plan_view(), self.progress_view()),
    {
        match self.progress.stage {
            Stage::Start => if self.plan.len() == 0 {
                Action::Finish
            } else {
                Action::Rename { from: File::Manifest, to: File::ManifestBackup }
            },
            Stage::ManifestAside => Action::WriteManifest,
            Stage::Written => Action::Rename { from: File::Lock, to: File::LockBackup },
            Stage::Operating(i) => if i < self.plan.len() {
                Action::Perform(self.plan[i])
            } else {
                Action::Restore { from: File::LockBackup, to: File::Lock }
            },
            Stage::RestoringLock => Action::Restore { from: File::LockBackup, to: File::Lock },
            Stage::RestoringManifest => Action::Restore { from: File::ManifestBackup, to: File::Manifest },
            Stage::Finished => Action::Finish,
        }
    }

    /// Records what came of the last action.
    pub fn step(&mut self, ev: Event)
        ensures
            final(self).plan_view() == old(self).plan_view(),
            final(self).progress_view() == next(old(self).plan_view(), old(self).progress_view(), ev),
    {
        let p = self.progress;
        let failed = match ev {
            Event::Done => None,
            Event::Failed(e) => Some(e),
        };
        let first = match (p.error, failed) {
            (None, Some(e)) => Some(e),
            _ => p.error,
        };
        let stage = match p.stage {
            Stage::Start => if self.plan.len() == 0 {
                Stage::Start
            } else if failed.is_none() {
                Stage::ManifestAside
            } else {
                Stage::Finished
            },
            Stage::ManifestAside => if failed.is_none() {
                Stage::Written
            } else {
                Stage::RestoringManifest
            },
            Stage::Written => if failed.is_none() {
                Stage::Operating(0)
            } else {
                Stage::RestoringManifest
            },
            Stage::Operating(i) => if i < self.plan.len() {
                if failed.is_none() {
                    Stage::Operating(i + 1)
                } else {
                    Stage::RestoringLock
                }
            } else {
                Stage::RestoringManifest
            },
            Stage::RestoringLock => Stage::RestoringManifest,
            Stage::RestoringManifest => Stage::Finished,
            Stage::Finished => Stage::Finished,
        };
        let restoring_lock = match p.stage {
            Stage::Operating(i) => i >= self.plan.len(),
            Stage::RestoringLock => true,
            _ => false,
        };
        let records_error = match p.stage {
            Stage::Start => self.plan.len() > 0,
            Stage::ManifestAside | Stage::Written => true,
            Stage::Operating(i) => i < self.plan.len(),
            _ => false,
        };
        self.progress = Progress {
            stage,
            error: if records_error { first } else { p.error },
            lock_restore_failed: if restoring_lock { failed.is_some() } else { p.lock_restore_failed },
            manifest_restore_failed: if p.stage == Stage::RestoringManifest { failed.is_some() } else { p.manifest_restore_failed },
        };
    }
}

} // verus!
