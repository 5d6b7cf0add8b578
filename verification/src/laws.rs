use vstd::prelude::*;
use vstd::map::*;
use crate::fsop::{ops_apply, FsModel, FsOp};
use crate::names::{lemma_name_pair_distinct, lemma_name_self_distinct, orig_name_of,
    staged_orig_name_of};
use crate::plan::{
    backups_absent, delta_empty, is_backup_name, is_cleanup_plan, is_prep_plan,
    is_rollback_plan, is_restore_plan, is_target_path, lemma_cleanup_plan_effect,
    lemma_prep_plan_effect, lemma_restore_plan_effect, lemma_rollback_restores,
    spec_backport_step, targets_on_disk, BackportStep,
};
use crate::snapshot::{committed_entries, lemma_commit_noop, Entry};
use crate::staging::all_staged;
use crate::target::{is_clean, is_run_name, name_of_target, targets_wf, Target};

verus! {

/// Staging precondition: when at least one requested file is unstaged,
/// the set is rejected, and a rejecting run executes no filesystem
/// operation at all, so the working tree and the index stand exactly as
/// they were. `bad` lists the unstaged files, as `unstaged_indices`
/// promises it.
pub proof fn law_staging_precondition(staged: Seq<bool>, bad: Seq<usize>, fs: FsModel)
    requires
        bad.len() == 0 <==> all_staged(staged),
        !all_staged(staged),
    ensures
        bad.len() > 0,
        ops_apply(fs, Seq::<FsOp>::empty()) == fs,
{
}

/// Formatter-failure rollback: after preparation, however a failed
/// formatter rewrote the target files, running the rollback plan restores
/// the model filesystem to exactly its pre-run state, and no backup
/// artifact remains. The hypotheses say only that the formatter touched
/// nothing but names of the run and left the two backup artifacts alone.
pub proof fn law_formatter_failure_rollback(
    fs: FsModel,
    fs_fail: FsModel,
    ts: Seq<Target>,
    prep: Seq<FsOp>,
    rb: Seq<FsOp>,
)
    requires
        targets_wf(ts),
        targets_on_disk(fs, ts),
        backups_absent(fs, ts),
        is_prep_plan(prep, ts),
        is_rollback_plan(rb, ts),
        // the failed formatter touched only names of the run
        forall|p: Seq<u8>| !(#[trigger] is_run_name(ts, p)) ==> {
            &&& fs_fail.contains_key(p) == ops_apply(fs, prep).contains_key(p)
            &&& (ops_apply(fs, prep).contains_key(p) ==> fs_fail[p] == ops_apply(fs, prep)[p])
        },
        // and it left the pre-run backups alone
        forall|i: int| #![trigger ts[i]] 0 <= i < ts.len() ==> {
            &&& fs_fail.contains_key(orig_name_of(ts[i].path@))
            &&& fs_fail[orig_name_of(ts[i].path@)] == ops_apply(fs, prep)[orig_name_of(
                ts[i].path@,
            )]
        },
    ensures
        ops_apply(fs_fail, rb) == fs,
        forall|i: int| #![trigger ts[i]] 0 <= i < ts.len() ==> {
            &&& !ops_apply(fs_fail, rb).contains_key(orig_name_of(ts[i].path@))
            &&& !ops_apply(fs_fail, rb).contains_key(staged_orig_name_of(ts[i].path@))
        },
{
    lemma_prep_plan_effect(fs, prep, ts);
    let fs1 = ops_apply(fs, prep);
    assert forall|i: int| #![trigger ts[i]] 0 <= i < ts.len() implies {
        &&& fs_fail.contains_key(orig_name_of(ts[i].path@))
        &&& fs_fail[orig_name_of(ts[i].path@)] == ts[i].working@
    } by {
        assert(ts[i] == ts[i]);
    }
    assert forall|p: Seq<u8>| !(#[trigger] is_run_name(ts, p)) implies {
        &&& fs_fail.contains_key(p) == fs.contains_key(p)
        &&& (fs.contains_key(p) ==> fs_fail[p] == fs[p])
    } by {
        assert(fs1.contains_key(p) == fs.contains_key(p));
    }
    lemma_rollback_restores(fs, fs_fail, rb, ts);
}

/// A path that is no name of the run is neither a target path nor a
/// backup name.
proof fn lemma_not_run_name(ts: Seq<Target>, p: Seq<u8>)
    requires
        !is_run_name(ts, p),
    ensures
        !is_target_path(ts, p),
        !is_backup_name(ts, p),
{
    if is_target_path(ts, p) {
        let i = choose|i: int| 0 <= i < ts.len() && #[trigger] ts[i].path@ == p;
        assert(name_of_target(ts[i], p));
    }
    if is_backup_name(ts, p) {
        let i = choose|i: int| #![trigger ts[i]] 0 <= i < ts.len() && (p == orig_name_of(
            ts[i].path@,
        ) || p == staged_orig_name_of(ts[i].path@));
        assert(name_of_target(ts[i], p));
    }
}

/// In a well-formed target set, a target path is never a backup name.
proof fn lemma_target_path_not_backup(ts: Seq<Target>, i: int)
    requires
        targets_wf(ts),
        0 <= i < ts.len(),
    ensures
        !is_backup_name(ts, ts[i].path@),
        is_target_path(ts, ts[i].path@),
        is_run_name(ts, ts[i].path@),
{
    assert(name_of_target(ts[i], ts[i].path@));
    assert(ts[i].path@ == ts[i].path@);
    if is_backup_name(ts, ts[i].path@) {
        let j = choose|j: int| #![trigger ts[j]] 0 <= j < ts.len() && (ts[i].path@
            == orig_name_of(ts[j].path@) || ts[i].path@ == staged_orig_name_of(ts[j].path@));
        if i == j {
            lemma_name_self_distinct(ts[i].path@);
        } else {
            lemma_name_pair_distinct(ts[i].path@, ts[j].path@);
        }
    }
}

/// In a well-formed target set, a backup name is never a target path.
proof fn lemma_backup_not_target_path(ts: Seq<Target>, i: int)
    requires
        targets_wf(ts),
        0 <= i < ts.len(),
    ensures
        !is_target_path(ts, orig_name_of(ts[i].path@)),
        !is_target_path(ts, staged_orig_name_of(ts[i].path@)),
{
    if is_target_path(ts, orig_name_of(ts[i].path@)) {
        let j = choose|j: int| 0 <= j < ts.len() && #[trigger] ts[j].path@ == orig_name_of(
            ts[i].path@,
        );
        if i == j {
            lemma_name_self_distinct(ts[i].path@);
        } else {
            lemma_name_pair_distinct(ts[j].path@, ts[i].path@);
        }
    }
    if is_target_path(ts, staged_orig_name_of(ts[i].path@)) {
        let j = choose|j: int| 0 <= j < ts.len() && #[trigger] ts[j].path@
            == staged_orig_name_of(ts[i].path@);
        if i == j {
            lemma_name_self_distinct(ts[i].path@);
        } else {
            lemma_name_pair_distinct(ts[j].path@, ts[i].path@);
        }
    }
}

/// Idempotence under a no-op formatter: when the formatter returns every
/// staged content unchanged, the run's success path leaves the model
/// filesystem exactly as it was before the run (all backup artifacts
/// gone), and the committed index snapshot is byte-identical to the old
/// one. `fs_fmt` is the filesystem after the formatter ran over the
/// prepared working tree; the hypotheses on it say the formatter rewrote
/// exactly the target files with `outs` and touched nothing else.
pub proof fn law_noop_formatter(
    fs: FsModel,
    fs_fmt: FsModel,
    ts: Seq<Target>,
    prep: Seq<FsOp>,
    rops: Seq<FsOp>,
    cops: Seq<FsOp>,
    outs: Seq<Vec<u8>>,
    old_es: Seq<Entry>,
    new_es: Seq<Entry>,
)
    requires
        targets_wf(ts),
        targets_on_disk(fs, ts),
        backups_absent(fs, ts),
        is_prep_plan(prep, ts),
        is_restore_plan(rops, ts),
        is_cleanup_plan(cops, ts),
        outs.len() == ts.len(),
        // the formatter changed nothing
        forall|i: int| #![trigger ts[i]] 0 <= i < ts.len() ==> outs[i]@ == ts[i].staged@,
        // it rewrote exactly the target files with `outs`
        forall|i: int| #![trigger ts[i]] 0 <= i < ts.len() ==> {
            &&& fs_fmt.contains_key(ts[i].path@)
            &&& fs_fmt[ts[i].path@] == outs[i]@
        },
        forall|p: Seq<u8>| !(#[trigger] is_target_path(ts, p)) ==> {
            &&& fs_fmt.contains_key(p) == ops_apply(fs, prep).contains_key(p)
            &&& (ops_apply(fs, prep).contains_key(p) ==> fs_fmt[p] == ops_apply(fs, prep)[p])
        },
        // the new index snapshot is the committed one
        committed_entries(old_es, new_es, ts, outs),
        // and the old snapshot is where the staged content came from
        forall|k: int, i: int|
            0 <= k < old_es.len() && 0 <= i < ts.len() && (#[trigger] old_es[k].path@) == (
            #[trigger] ts[i].path@) ==> old_es[k].content@ == ts[i].staged@,
    ensures
        ops_apply(ops_apply(fs_fmt, rops), cops) == fs,
        new_es.len() == old_es.len(),
        forall|k: int| #![trigger new_es[k]] 0 <= k < old_es.len() ==> {
            &&& new_es[k].path@ == old_es[k].path@
            &&& new_es[k].content@ == old_es[k].content@
            &&& new_es[k].mode == old_es[k].mode
        },
{
    lemma_prep_plan_effect(fs, prep, ts);
    let fs1 = ops_apply(fs, prep);
    assert forall|i: int| #![trigger ts[i]] 0 <= i < ts.len() implies {
        &&& fs_fmt.contains_key(orig_name_of(ts[i].path@))
        &&& fs_fmt[orig_name_of(ts[i].path@)] == ts[i].working@
    } by {
        assert(ts[i] == ts[i]);
        lemma_backup_not_target_path(ts, i);
    }
    lemma_restore_plan_effect(fs_fmt, rops, ts);
    let fs2 = ops_apply(fs_fmt, rops);
    lemma_cleanup_plan_effect(fs2, cops, ts);
    let fs3 = ops_apply(fs2, cops);
    assert_maps_equal!(fs3, fs, p => {
        if is_run_name(ts, p) {
            let i = choose|i: int| 0 <= i < ts.len() && #[trigger] name_of_target(ts[i], p);
            assert(ts[i] == ts[i]);
            let pi = ts[i].path@;
            lemma_name_self_distinct(pi);
            lemma_target_path_not_backup(ts, i);
            lemma_backup_not_target_path(ts, i);
            if p == pi {
                if is_clean(ts[i]) {
                    assert(fs2.contains_key(pi) == fs_fmt.contains_key(pi));
                    assert(fs2[pi] == fs_fmt[pi]);
                    assert(fs2[pi] == ts[i].working@);
                } else {
                    assert(fs2.contains_key(pi) && fs2[pi] == ts[i].working@);
                }
                assert(fs3.contains_key(pi) && fs3[pi] == ts[i].working@);
                assert(fs.contains_key(pi) && fs[pi] == ts[i].working@);
            } else if p == orig_name_of(pi) {
                assert(is_backup_name(ts, p));
                assert(!fs3.contains_key(p));
                assert(!fs.contains_key(p));
            } else {
                assert(p == staged_orig_name_of(pi));
                assert(is_backup_name(ts, p));
                assert(!fs3.contains_key(p));
                assert(!fs.contains_key(p));
            }
        } else {
            lemma_not_run_name(ts, p);
            assert(fs1.contains_key(p) == fs.contains_key(p));
            assert(fs_fmt.contains_key(p) == fs1.contains_key(p));
            assert(fs2.contains_key(p) == fs_fmt.contains_key(p));
            assert(fs3.contains_key(p) == fs2.contains_key(p));
        }
    });
    lemma_commit_noop(old_es, new_es, ts, outs);
}

/// Isolation of unstaged edits, as far as it rests on this library: for a
/// dirty target (staged content S, working content S with a local edit),
/// the backport stage puts the pre-run working content — the edit included
/// — back at the working path before any formatting delta is applied, and
/// the committed index entry holds exactly the formatted staged content.
/// Applying the zero-context delta without touching lines outside it is
/// the patch collaborator's contract, not proved here.
pub proof fn law_unstaged_edits_isolated(
    fs: FsModel,
    fs_fmt: FsModel,
    ts: Seq<Target>,
    prep: Seq<FsOp>,
    rops: Seq<FsOp>,
    outs: Seq<Vec<u8>>,
    old_es: Seq<Entry>,
    new_es: Seq<Entry>,
    i: int,
)
    requires
        targets_wf(ts),
        targets_on_disk(fs, ts),
        backups_absent(fs, ts),
        is_prep_plan(prep, ts),
        is_restore_plan(rops, ts),
        outs.len() == ts.len(),
        // the formatter rewrote exactly the target files with `outs`
        forall|j: int| #![trigger ts[j]] 0 <= j < ts.len() ==> {
            &&& fs_fmt.contains_key(ts[j].path@)
            &&& fs_fmt[ts[j].path@] == outs[j]@
        },
        forall|p: Seq<u8>| !(#[trigger] is_target_path(ts, p)) ==> {
            &&& fs_fmt.contains_key(p) == ops_apply(fs, prep).contains_key(p)
            &&& (ops_apply(fs, prep).contains_key(p) ==> fs_fmt[p] == ops_apply(fs, prep)[p])
        },
        committed_entries(old_es, new_es, ts, outs),
        0 <= i < ts.len(),
        !is_clean(ts[i]),
    ensures
        ops_apply(fs_fmt, rops).contains_key(ts[i].path@),
        ops_apply(fs_fmt, rops)[ts[i].path@] == ts[i].working@,
        forall|k: int|
            0 <= k < old_es.len() && (#[trigger] old_es[k].path@) == ts[i].path@
                ==> new_es[k].content@ == outs[i]@,
{
    lemma_prep_plan_effect(fs, prep, ts);
    assert forall|j: int| #![trigger ts[j]] 0 <= j < ts.len() implies {
        &&& fs_fmt.contains_key(orig_name_of(ts[j].path@))
        &&& fs_fmt[orig_name_of(ts[j].path@)] == ts[j].working@
    } by {
        assert(ts[j] == ts[j]);
        lemma_backup_not_target_path(ts, j);
    }
    lemma_restore_plan_effect(fs_fmt, rops, ts);
    assert(ts[i] == ts[i]);
    assert forall|k: int|
        0 <= k < old_es.len() && (#[trigger] old_es[k].path@) == ts[i].path@ implies {
        new_es[k].content@ == outs[i]@
    } by {
        assert(ts[i].path@ == ts[i].path@);
    }
}

/// Round-trip: for a target whose staged content is already in canonical
/// form (the formatter returns it unchanged), the delta is empty, the
/// backport stage applies no patch for it, and its committed index entry
/// is byte-identical to the old one — under content addressing, the same
/// blob.
pub proof fn law_round_trip(
    ts: Seq<Target>,
    outs: Seq<Vec<u8>>,
    old_es: Seq<Entry>,
    new_es: Seq<Entry>,
    i: int,
)
    requires
        committed_entries(old_es, new_es, ts, outs),
        outs.len() == ts.len(),
        0 <= i < ts.len(),
        // the staged content is already canonical
        outs[i]@ == ts[i].staged@,
        // the old snapshot is where the staged content came from
        forall|k: int, j: int|
            0 <= k < old_es.len() && 0 <= j < ts.len() && (#[trigger] old_es[k].path@) == (
            #[trigger] ts[j].path@) ==> old_es[k].content@ == ts[j].staged@,
    ensures
        delta_empty(ts[i], outs[i]),
        spec_backport_step(ts[i], outs[i]) != BackportStep::RestoreThenPatch,
        forall|k: int|
            0 <= k < old_es.len() && (#[trigger] old_es[k].path@) == ts[i].path@
                ==> new_es[k].content@ == old_es[k].content@,
{
    assert forall|k: int|
        0 <= k < old_es.len() && (#[trigger] old_es[k].path@) == ts[i].path@ implies {
        new_es[k].content@ == old_es[k].content@
    } by {
        assert(ts[i].path@ == ts[i].path@);
        assert(new_es[k].content@ == outs[i]@);
        assert(old_es[k].content@ == ts[i].staged@);
    }
}

/// The success path, end to end, for an arbitrary formatter: after
/// preparation, formatting, restore, patching and cleanup, every clean
/// target's working copy holds exactly the formatted staged content;
/// every dirty target with an empty delta holds its pre-run working
/// content again, byte for byte; every dirty target with a nonempty delta
/// holds whatever the patch collaborator made of it; no backup artifact
/// remains; and every path that is no name of the run is untouched.
/// `fs_fmt` is the filesystem after the formatter, `fs_patch` the one
/// after the patch step; the hypotheses on them say which files each of
/// those two collaborators may touch, and nothing more.
pub proof fn law_success_path(
    fs: FsModel,
    fs_fmt: FsModel,
    fs_patch: FsModel,
    ts: Seq<Target>,
    prep: Seq<FsOp>,
    rops: Seq<FsOp>,
    cops: Seq<FsOp>,
    outs: Seq<Vec<u8>>,
    patched: Seq<Vec<u8>>,
)
    requires
        targets_wf(ts),
        targets_on_disk(fs, ts),
        backups_absent(fs, ts),
        is_prep_plan(prep, ts),
        is_restore_plan(rops, ts),
        is_cleanup_plan(cops, ts),
        outs.len() == ts.len(),
        patched.len() == ts.len(),
        // the formatter rewrote exactly the target files with `outs`
        forall|i: int| #![trigger ts[i]] 0 <= i < ts.len() ==> {
            &&& fs_fmt.contains_key(ts[i].path@)
            &&& fs_fmt[ts[i].path@] == outs[i]@
        },
        forall|p: Seq<u8>| !(#[trigger] is_target_path(ts, p)) ==> {
            &&& fs_fmt.contains_key(p) == ops_apply(fs, prep).contains_key(p)
            &&& (ops_apply(fs, prep).contains_key(p) ==> fs_fmt[p] == ops_apply(fs, prep)[p])
        },
        // the patch step rewrote exactly the dirty targets with a
        // nonempty delta, with `patched`
        forall|i: int| #![trigger ts[i]] 0 <= i < ts.len() && spec_backport_step(ts[i], outs[i])
            == BackportStep::RestoreThenPatch ==> {
            &&& fs_patch.contains_key(ts[i].path@)
            &&& fs_patch[ts[i].path@] == patched[i]@
        },
        forall|i: int| #![trigger ts[i]] 0 <= i < ts.len() && spec_backport_step(ts[i], outs[i])
            != BackportStep::RestoreThenPatch ==> {
            &&& fs_patch.contains_key(ts[i].path@) == ops_apply(fs_fmt, rops).contains_key(
                ts[i].path@,
            )
            &&& (ops_apply(fs_fmt, rops).contains_key(ts[i].path@) ==> fs_patch[ts[i].path@]
                == ops_apply(fs_fmt, rops)[ts[i].path@])
        },
        forall|p: Seq<u8>| !(#[trigger] is_target_path(ts, p)) ==> {
            &&& fs_patch.contains_key(p) == ops_apply(fs_fmt, rops).contains_key(p)
            &&& (ops_apply(fs_fmt, rops).contains_key(p) ==> fs_patch[p] == ops_apply(
                fs_fmt,
                rops,
            )[p])
        },
    ensures
        forall|i: int| #![trigger ts[i]] 0 <= i < ts.len() && is_clean(ts[i]) ==> {
            &&& ops_apply(fs_patch, cops).contains_key(ts[i].path@)
            &&& ops_apply(fs_patch, cops)[ts[i].path@] == outs[i]@
        },
        forall|i: int| #![trigger ts[i]] 0 <= i < ts.len() && !is_clean(ts[i]) && delta_empty(
            ts[i],
            outs[i],
        ) ==> {
            &&& ops_apply(fs_patch, cops).contains_key(ts[i].path@)
            &&& ops_apply(fs_patch, cops)[ts[i].path@] == ts[i].working@
        },
        forall|i: int| #![trigger ts[i]] 0 <= i < ts.len() && !is_clean(ts[i]) && !delta_empty(
            ts[i],
            outs[i],
        ) ==> {
            &&& ops_apply(fs_patch, cops).contains_key(ts[i].path@)
            &&& ops_apply(fs_patch, cops)[ts[i].path@] == patched[i]@
        },
        forall|i: int| #![trigger ts[i]] 0 <= i < ts.len() ==> {
            &&& !ops_apply(fs_patch, cops).contains_key(orig_name_of(ts[i].path@))
            &&& !ops_apply(fs_patch, cops).contains_key(staged_orig_name_of(ts[i].path@))
        },
        forall|p: Seq<u8>| !(#[trigger] is_run_name(ts, p)) ==> {
            &&& ops_apply(fs_patch, cops).contains_key(p) == fs.contains_key(p)
            &&& (fs.contains_key(p) ==> ops_apply(fs_patch, cops)[p] == fs[p])
        },
{
    lemma_prep_plan_effect(fs, prep, ts);
    assert forall|i: int| #![trigger ts[i]] 0 <= i < ts.len() implies {
        &&& fs_fmt.contains_key(orig_name_of(ts[i].path@))
        &&& fs_fmt[orig_name_of(ts[i].path@)] == ts[i].working@
    } by {
        assert(ts[i] == ts[i]);
        lemma_backup_not_target_path(ts, i);
    }
    lemma_restore_plan_effect(fs_fmt, rops, ts);
    let fs2 = ops_apply(fs_fmt, rops);
    lemma_cleanup_plan_effect(fs_patch, cops, ts);
    let fin = ops_apply(fs_patch, cops);

    assert forall|i: int| #![trigger ts[i]] 0 <= i < ts.len() implies {
        &&& fin.contains_key(ts[i].path@)
        &&& (is_clean(ts[i]) ==> fin[ts[i].path@] == outs[i]@)
        &&& (!is_clean(ts[i]) && delta_empty(ts[i], outs[i]) ==> fin[ts[i].path@]
            == ts[i].working@)
        &&& (!is_clean(ts[i]) && !delta_empty(ts[i], outs[i]) ==> fin[ts[i].path@]
            == patched[i]@)
    } by {
        assert(ts[i] == ts[i]);
        let pi = ts[i].path@;
        lemma_target_path_not_backup(ts, i);
        if is_clean(ts[i]) {
            assert(fs2.contains_key(pi) == fs_fmt.contains_key(pi));
            assert(fs2[pi] == fs_fmt[pi]);
            assert(fs_patch.contains_key(pi) && fs_patch[pi] == outs[i]@);
        } else if delta_empty(ts[i], outs[i]) {
            assert(fs2.contains_key(pi) && fs2[pi] == ts[i].working@);
            assert(fs_patch.contains_key(pi) && fs_patch[pi] == ts[i].working@);
        } else {
            assert(fs_patch.contains_key(pi) && fs_patch[pi] == patched[i]@);
        }
        assert(fin.contains_key(pi) == fs_patch.contains_key(pi));
    }

    assert forall|p: Seq<u8>| !(#[trigger] is_run_name(ts, p)) implies {
        &&& fin.contains_key(p) == fs.contains_key(p)
        &&& (fs.contains_key(p) ==> fin[p] == fs[p])
    } by {
        lemma_not_run_name(ts, p);
        let fs1 = ops_apply(fs, prep);
        assert(fs1.contains_key(p) == fs.contains_key(p));
        assert(fs_fmt.contains_key(p) == fs1.contains_key(p));
        assert(fs2.contains_key(p) == fs_fmt.contains_key(p));
        assert(fs_patch.contains_key(p) == fs2.contains_key(p));
        assert(fin.contains_key(p) == fs_patch.contains_key(p));
    }
}

/// Crash safety: from the moment preparation completes until cleanup,
/// both backup artifacts of every target exist on disk, and the pre-run
/// backup still holds the pre-run working-tree content — after
/// preparation, after the formatter ran, and after the restore step. A
/// process that dies anywhere in between leaves enough on disk to rebuild
/// every target's pre-run state by hand.
pub proof fn law_backups_survive_backport(
    fs: FsModel,
    fs_fmt: FsModel,
    ts: Seq<Target>,
    prep: Seq<FsOp>,
    rops: Seq<FsOp>,
)
    requires
        targets_wf(ts),
        targets_on_disk(fs, ts),
        backups_absent(fs, ts),
        is_prep_plan(prep, ts),
        is_restore_plan(rops, ts),
        // the formatter rewrote only target files
        forall|p: Seq<u8>| !(#[trigger] is_target_path(ts, p)) ==> {
            &&& fs_fmt.contains_key(p) == ops_apply(fs, prep).contains_key(p)
            &&& (ops_apply(fs, prep).contains_key(p) ==> fs_fmt[p] == ops_apply(fs, prep)[p])
        },
    ensures
        forall|i: int| #![trigger ts[i]] 0 <= i < ts.len() ==> {
            &&& ops_apply(fs, prep).contains_key(orig_name_of(ts[i].path@))
            &&& ops_apply(fs, prep)[orig_name_of(ts[i].path@)] == ts[i].working@
            &&& ops_apply(fs, prep).contains_key(staged_orig_name_of(ts[i].path@))
        },
        forall|i: int| #![trigger ts[i]] 0 <= i < ts.len() ==> {
            &&& fs_fmt.contains_key(orig_name_of(ts[i].path@))
            &&& fs_fmt[orig_name_of(ts[i].path@)] == ts[i].working@
            &&& fs_fmt.contains_key(staged_orig_name_of(ts[i].path@))
        },
        forall|i: int| #![trigger ts[i]] 0 <= i < ts.len() ==> {
            &&& ops_apply(fs_fmt, rops).contains_key(orig_name_of(ts[i].path@))
            &&& ops_apply(fs_fmt, rops)[orig_name_of(ts[i].path@)] == ts[i].working@
            &&& ops_apply(fs_fmt, rops).contains_key(staged_orig_name_of(ts[i].path@))
        },
{
    lemma_prep_plan_effect(fs, prep, ts);
    assert forall|i: int| #![trigger ts[i]] 0 <= i < ts.len() implies {
        &&& fs_fmt.contains_key(orig_name_of(ts[i].path@))
        &&& fs_fmt[orig_name_of(ts[i].path@)] == ts[i].working@
        &&& fs_fmt.contains_key(staged_orig_name_of(ts[i].path@))
    } by {
        assert(ts[i] == ts[i]);
        lemma_backup_not_target_path(ts, i);
    }
    lemma_restore_plan_effect(fs_fmt, rops, ts);
    assert forall|i: int| #![trigger ts[i]] 0 <= i < ts.len() implies {
        &&& ops_apply(fs_fmt, rops).contains_key(orig_name_of(ts[i].path@))
        &&& ops_apply(fs_fmt, rops)[orig_name_of(ts[i].path@)] == ts[i].working@
        &&& ops_apply(fs_fmt, rops).contains_key(staged_orig_name_of(ts[i].path@))
    } by {
        assert(ts[i] == ts[i]);
        lemma_backup_not_target_path(ts, i);
    }
}

/// Multi-file atomicity of the index update: the committed snapshot
/// reflects every target's formatted blob at once, and leaves every other
/// entry byte-identical. A run that stops anywhere before the commit never
/// yields a snapshot at all, so the persisted index then still holds the
/// pre-run entries: the update is all of the targets, or none.
pub proof fn law_index_atomicity(
    old_es: Seq<Entry>,
    new_es: Seq<Entry>,
    ts: Seq<Target>,
    outs: Seq<Vec<u8>>,
)
    requires
        committed_entries(old_es, new_es, ts, outs),
    ensures
        new_es.len() == old_es.len(),
        forall|k: int, i: int|
            0 <= k < old_es.len() && 0 <= i < ts.len() && (#[trigger] old_es[k].path@) == (
            #[trigger] ts[i].path@) ==> new_es[k].content@ == outs[i]@,
        forall|k: int| #![trigger new_es[k]] 0 <= k < old_es.len() && !is_target_path(
            ts,
            old_es[k].path@,
        ) ==> {
            &&& new_es[k].path@ == old_es[k].path@
            &&& new_es[k].content@ == old_es[k].content@
            &&& new_es[k].mode == old_es[k].mode
        },
{
}

} // verus!
