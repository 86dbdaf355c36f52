//! What a run does to the files it touches, and the laws that follow: however
//! the operations turn out, the manifest and the lock file end as they began,
//! unless copying one of them back failed.
use vstd::prelude::*;

use crate::session::{action_of, initial, next, plan_of, Action, Event, File, Mode, Progress,
    RunError, Stage, Step};

verus! {

/// The contents of the files that a run touches; a file that does not exist
/// has no entry.
pub type Files = Map<File, Seq<u8>>;

/// Whether `f` is the same in `a` and in `b`.
pub open spec fn same_at(a: Files, b: Files, f: File) -> bool {
    &&& a.contains_key(f) == b.contains_key(f)
    &&& a.contains_key(f) ==> b[f] == a[f]
}

/// Whether `b` differs from `a` in `f` alone.
pub open spec fn only_changes(a: Files, b: Files, f: File) -> bool {
    forall|g: File| g != f ==> #[trigger] same_at(a, b, g)
}

/// Whether performing `a` on `fs`, with the outcome `ev`, may leave `fs2`.
///
/// A rename moves the file, or fails and changes nothing. Writing the
/// manifest changes it alone. A step of the plan may change anything but the
/// backups. A copy sets its target to the backup's content, or fails having
/// changed at most the target.
pub open spec fn effect(a: Action, ev: Event, fs: Files, fs2: Files) -> bool {
    match a {
        Action::Rename { from, to } => match ev {
            Event::Done => fs.contains_key(from) && fs2 == fs.remove(from).insert(to, fs[from]),
            Event::Failed(_) => fs2 == fs,
        },
        Action::WriteManifest => only_changes(fs, fs2, File::Manifest),
        Action::Perform(_) => same_at(fs, fs2, File::ManifestBackup) && same_at(fs, fs2, File::LockBackup),
        Action::Restore { from, to } => match ev {
            Event::Done => fs.contains_key(from) && fs2 == fs.insert(to, fs[from]),
            Event::Failed(_) => only_changes(fs, fs2, to),
        },
        Action::Finish => fs2 == fs,
    }
}

/// Whether the outcomes `evs`, leaving the files as `fss` after each action,
/// can follow one another from state `p` with the files as `fs`.
pub open spec fn runs(plan: Seq<Step>, p: Progress, fs: Files, evs: Seq<Event>, fss: Seq<Files>) -> bool
    decreases evs.len(),
{
    &&& evs.len() == fss.len()
    &&& evs.len() > 0 ==> {
        &&& effect(action_of(plan, p), evs[0], fs, fss[0])
        &&& runs(plan, next(plan, p, evs[0]), fss[0], evs.drop_first(), fss.drop_first())
    }
}

/// The state after the outcomes `evs`, from `p`.
pub open spec fn end_state(plan: Seq<Step>, p: Progress, evs: Seq<Event>) -> Progress
    decreases evs.len(),
{
    if evs.len() == 0 {
        p
    } else {
        end_state(plan, next(plan, p, evs[0]), evs.drop_first())
    }
}

/// The files after a run that left them as `fss`, from `fs`.
pub open spec fn end_files(fs: Files, fss: Seq<Files>) -> Files {
    if fss.len() == 0 {
        fs
    } else {
        fss.last()
    }
}

/// What `fs` holds at `f`: its content, or nothing where there is no such file.
pub open spec fn content(fs: Files, f: File) -> Option<Seq<u8>> {
    if fs.contains_key(f) {
        Some(fs[f])
    } else {
        None
    }
}

/// Whether the files, in state `p`, are as a run leaves them that began with
/// the manifest as `m0` and the lock file as `l0` (`None`: absent).
pub open spec fn consistent(plan: Seq<Step>, p: Progress, fs: Files, m0: Option<Seq<u8>>, l0: Option<Seq<u8>>) -> bool {
    match p.stage {
        Stage::Start => content(fs, File::Manifest) == m0 && content(fs, File::Lock) == l0,
        Stage::ManifestAside | Stage::Written => content(fs, File::ManifestBackup) == m0 && m0 is Some
            && content(fs, File::Lock) == l0,
        Stage::Operating(i) => i <= plan.len() && content(fs, File::ManifestBackup) == m0 && m0 is Some
            && content(fs, File::LockBackup) == l0 && l0 is Some,
        Stage::RestoringLock => content(fs, File::ManifestBackup) == m0 && m0 is Some && content(
            fs,
            File::LockBackup,
        ) == l0 && l0 is Some,
        Stage::RestoringManifest => content(fs, File::ManifestBackup) == m0 && m0 is Some && (
        !p.lock_restore_failed ==> content(fs, File::Lock) == l0),
        Stage::Finished => (!p.manifest_restore_failed ==> content(fs, File::Manifest) == m0) && (
        !p.lock_restore_failed ==> content(fs, File::Lock) == l0),
    }
}

/// One action keeps the files consistent with the state.
pub proof fn lemma_step_consistent(
    plan: Seq<Step>,
    p: Progress,
    fs: Files,
    ev: Event,
    fs2: Files,
    m0: Option<Seq<u8>>,
    l0: Option<Seq<u8>>,
)
    requires
        consistent(plan, p, fs, m0, l0),
        effect(action_of(plan, p), ev, fs, fs2),
    ensures
        consistent(plan, next(plan, p, ev), fs2, m0, l0),
{
    assert(same_at(fs, fs2, File::ManifestBackup) ==> content(fs2, File::ManifestBackup) == content(fs, File::ManifestBackup));
    assert(same_at(fs, fs2, File::LockBackup) ==> content(fs2, File::LockBackup) == content(fs, File::LockBackup));
    assert(same_at(fs, fs2, File::Lock) ==> content(fs2, File::Lock) == content(fs, File::Lock));
    assert(same_at(fs, fs2, File::Manifest) ==> content(fs2, File::Manifest) == content(fs, File::Manifest));
    match action_of(plan, p) {
        Action::WriteManifest => {
            assert(same_at(fs, fs2, File::ManifestBackup));
            assert(same_at(fs, fs2, File::Lock));
        },
        Action::Restore { from, to } => {
            if ev is Failed {
                assert(same_at(fs, fs2, File::ManifestBackup));
                assert(same_at(fs, fs2, File::LockBackup));
                if to != File::Lock {
                    assert(same_at(fs, fs2, File::Lock));
                }
            }
        },
        _ => {},
    }
}

/// A run keeps the files consistent with the state.
pub proof fn lemma_run_consistent(
    plan: Seq<Step>,
    p: Progress,
    fs: Files,
    evs: Seq<Event>,
    fss: Seq<Files>,
    m0: Option<Seq<u8>>,
    l0: Option<Seq<u8>>,
)
    requires
        consistent(plan, p, fs, m0, l0),
        runs(plan, p, fs, evs, fss),
    ensures
        consistent(plan, end_state(plan, p, evs), end_files(fs, fss), m0, l0),
    decreases evs.len(),
{
    if evs.len() > 0 {
        lemma_step_consistent(plan, p, fs, evs[0], fss[0], m0, l0);
        lemma_run_consistent(plan, next(plan, p, evs[0]), fss[0], evs.drop_first(), fss.drop_first(), m0, l0);
        if fss.len() > 1 {
            assert(fss.drop_first().last() == fss.last());
        }
    }
}

/// Restoration: a run that has nothing left to do leaves the manifest and
/// the lock file each as it began (present with the same content, or absent),
/// unless copying that file back failed; whatever came of the operations in
/// between.
pub proof fn restoration(mode: Mode, fs0: Files, evs: Seq<Event>, fss: Seq<Files>)
    requires
        runs(plan_of(mode), initial(), fs0, evs, fss),
        action_of(plan_of(mode), end_state(plan_of(mode), initial(), evs)) == Action::Finish,
    ensures
        !end_state(plan_of(mode), initial(), evs).manifest_restore_failed ==> same_at(
            fs0,
            end_files(fs0, fss),
            File::Manifest,
        ),
        !end_state(plan_of(mode), initial(), evs).lock_restore_failed ==> same_at(
            fs0,
            end_files(fs0, fss),
            File::Lock,
        ),
{
    let m0 = content(fs0, File::Manifest);
    let l0 = content(fs0, File::Lock);
    lemma_run_consistent(plan_of(mode), initial(), fs0, evs, fss, m0, l0);
}

/// Without a lock file, a run that has set the manifest aside fails with the
/// error of the rename, copies the manifest back, runs no operation, and
/// leaves no lock file behind.
pub proof fn missing_lock_restores_manifest(mode: Mode, fs0: Files, evs: Seq<Event>, fss: Seq<Files>)
    requires
        !fs0.contains_key(File::Lock),
        runs(plan_of(mode), initial(), fs0, evs, fss),
        action_of(plan_of(mode), end_state(plan_of(mode), initial(), evs)) == Action::Finish,
    ensures
        !end_state(plan_of(mode), initial(), evs).manifest_restore_failed ==> same_at(
            fs0,
            end_files(fs0, fss),
            File::Manifest,
        ),
        !end_state(plan_of(mode), initial(), evs).lock_restore_failed ==> !end_files(fs0, fss).contains_key(File::Lock),
        forall|j: int| 0 <= j < evs.len() ==> !(#[trigger] action_of(plan_of(mode), end_state(plan_of(mode), initial(), evs.take(j)))
            is Perform),
{
    restoration(mode, fs0, evs, fss);
    assert forall|j: int| 0 <= j < evs.len() implies !(#[trigger] action_of(plan_of(mode), end_state(plan_of(mode), initial(), evs.take(j)))
        is Perform) by {
        lemma_run_prefix(plan_of(mode), initial(), fs0, evs, fss, j);
        lemma_run_consistent(plan_of(mode), initial(), fs0, evs.take(j), fss.take(j), content(fs0, File::Manifest), None);
    }
}

/// The first part of a run is a run.
pub proof fn lemma_run_prefix(plan: Seq<Step>, p: Progress, fs: Files, evs: Seq<Event>, fss: Seq<Files>, k: int)
    requires
        runs(plan, p, fs, evs, fss),
        0 <= k <= evs.len(),
    ensures
        runs(plan, p, fs, evs.take(k), fss.take(k)),
    decreases k,
{
    if k > 0 {
        lemma_run_prefix(plan, next(plan, p, evs[0]), fss[0], evs.drop_first(), fss.drop_first(), k - 1);
        assert(evs.take(k).drop_first() =~= evs.drop_first().take(k - 1));
        assert(fss.take(k).drop_first() =~= fss.drop_first().take(k - 1));
    }
}

/// A run splits at any point into the part before and the part after.
pub proof fn lemma_end_state_split(plan: Seq<Step>, p: Progress, evs: Seq<Event>, k: int)
    requires
        0 <= k <= evs.len(),
    ensures
        end_state(plan, p, evs) == end_state(plan, end_state(plan, p, evs.take(k)), evs.skip(k)),
    decreases k,
{
    if k == 0 {
        assert(evs.skip(0) =~= evs);
    } else {
        let q = next(plan, p, evs[0]);
        lemma_end_state_split(plan, q, evs.drop_first(), k - 1);
        assert(evs.take(k).drop_first() =~= evs.drop_first().take(k - 1));
        assert(evs.drop_first().skip(k - 1) =~= evs.skip(k));
        assert(evs.take(k)[0] == evs[0]);
    }
}

/// Actions that succeed record no failure.
pub proof fn lemma_done_records_nothing(plan: Seq<Step>, p: Progress, evs: Seq<Event>)
    requires
        p.error is None,
        forall|j: int| 0 <= j < evs.len() ==> evs[j] == Event::Done,
    ensures
        end_state(plan, p, evs).error is None,
    decreases evs.len(),
{
    if evs.len() > 0 {
        assert forall|j: int| 0 <= j < evs.drop_first().len() implies evs.drop_first()[j] == Event::Done by {
            assert(evs.drop_first()[j] == evs[j + 1]);
        }
        lemma_done_records_nothing(plan, next(plan, p, evs[0]), evs.drop_first());
    }
}

/// The first failure that a run records stays recorded.
pub proof fn lemma_error_kept(plan: Seq<Step>, p: Progress, evs: Seq<Event>)
    requires
        p.error is Some,
    ensures
        end_state(plan, p, evs).error == p.error,
    decreases evs.len(),
{
    if evs.len() > 0 {
        lemma_error_kept(plan, next(plan, p, evs[0]), evs.drop_first());
    }
}

/// A failed build: where the first failure of a run is the build tool exiting
/// with failure, the run, once it has nothing left to do, reports that
/// failure with its exit code, and the manifest and the lock file are as
/// they began, unless copying one of them back failed.
pub proof fn build_failure_reported(
    mode: Mode,
    fs0: Files,
    evs: Seq<Event>,
    fss: Seq<Files>,
    k: int,
    code: Option<i32>,
)
    requires
        runs(plan_of(mode), initial(), fs0, evs, fss),
        action_of(plan_of(mode), end_state(plan_of(mode), initial(), evs)) == Action::Finish,
        0 <= k < evs.len(),
        forall|j: int| 0 <= j < k ==> evs[j] == Event::Done,
        action_of(plan_of(mode), end_state(plan_of(mode), initial(), evs.take(k))) is Perform,
        evs[k] == Event::Failed(RunError::Build(code)),
    ensures
        end_state(plan_of(mode), initial(), evs).error == Some(RunError::Build(code)),
        !end_state(plan_of(mode), initial(), evs).manifest_restore_failed ==> same_at(
            fs0,
            end_files(fs0, fss),
            File::Manifest,
        ),
        !end_state(plan_of(mode), initial(), evs).lock_restore_failed ==> same_at(
            fs0,
            end_files(fs0, fss),
            File::Lock,
        ),
{
    let plan = plan_of(mode);
    restoration(mode, fs0, evs, fss);
    let pk = end_state(plan, initial(), evs.take(k));
    assert forall|j: int| 0 <= j < evs.take(k).len() implies evs.take(k)[j] == Event::Done by {
        assert(evs.take(k)[j] == evs[j]);
    }
    lemma_done_records_nothing(plan, initial(), evs.take(k));
    lemma_end_state_split(plan, initial(), evs, k);
    let rest = evs.skip(k);
    assert(rest[0] == evs[k]);
    let pk1 = next(plan, pk, rest[0]);
    assert(pk1.error == Some(RunError::Build(code)));
    lemma_error_kept(plan, pk1, rest.drop_first());
}

} // verus!
