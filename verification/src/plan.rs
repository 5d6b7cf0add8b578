use vstd::prelude::*;
use vstd::map::*;
use crate::bytes::copy_bytes;
use crate::fsop::{
    op_apply, op_is_copy, op_is_remove, op_is_rename, op_is_write, ops_apply, FsModel, FsOp,
};
use crate::names::{
    lemma_name_pair_distinct, lemma_name_self_distinct, orig_name, orig_name_of,
    staged_orig_name, staged_orig_name_of,
};
use crate::target::{
    classify_clean, is_clean, is_run_name, name_of_target, targets_wf, Target,
};

verus! {

/// Every target's working-tree copy exists and holds the target's recorded
/// pre-run working content.
pub open spec fn targets_on_disk(fs: FsModel, ts: Seq<Target>) -> bool {
    forall|i: int| 0 <= i < ts.len() ==> {
        &&& fs.contains_key(#[trigger] ts[i].path@)
        &&& fs[ts[i].path@] == ts[i].working@
    }
}

/// No backup-artifact name of any target exists yet.
pub open spec fn backups_absent(fs: FsModel, ts: Seq<Target>) -> bool {
    forall|i: int| 0 <= i < ts.len() ==> {
        &&& !fs.contains_key(orig_name_of(#[trigger] ts[i].path@))
        &&& !fs.contains_key(staged_orig_name_of(ts[i].path@))
    }
}

/// The first `n` targets' slice of a preparation plan: for target `j`,
/// rename the working copy to its backup name, write the staged content to
/// its staged-backup name, then write the staged content over the working
/// path, so the formatter only ever sees staged bytes.
pub open spec fn is_prep_plan_upto(ops: Seq<FsOp>, ts: Seq<Target>, n: int) -> bool {
    &&& ops.len() == 3 * n
    &&& forall|j: int| #![trigger ts[j]] 0 <= j < n ==> {
        &&& op_is_rename(ops[3 * j], ts[j].path@, orig_name_of(ts[j].path@))
        &&& op_is_write(ops[3 * j + 1], staged_orig_name_of(ts[j].path@), ts[j].staged@)
        &&& op_is_write(ops[3 * j + 2], ts[j].path@, ts[j].staged@)
    }
}

/// The whole preparation plan: Backup Manager and Staged-Content Extractor
/// steps for every target, in target order.
pub open spec fn is_prep_plan(ops: Seq<FsOp>, ts: Seq<Target>) -> bool {
    is_prep_plan_upto(ops, ts, ts.len() as int)
}

/// Build the preparation plan for a validated target set.
pub fn prepare_plan(ts: &Vec<Target>) -> (r: Vec<FsOp>)
    ensures
        is_prep_plan(r@, ts@),
{
    let mut r: Vec<FsOp> = Vec::new();
    let mut i: usize = 0;
    while i < ts.len()
        invariant
            i <= ts.len(),
            is_prep_plan_upto(r@, ts@, i as int),
        decreases ts.len() - i,
    {
        let p = copy_bytes(&ts[i].path);
        let o = orig_name(&ts[i].path);
        let so = staged_orig_name(&ts[i].path);
        let st1 = copy_bytes(&ts[i].staged);
        let st2 = copy_bytes(&ts[i].staged);
        let p2 = copy_bytes(&ts[i].path);
        r.push(FsOp::Rename { from: p, to: o });
        r.push(FsOp::Write { path: so, content: st1 });
        r.push(FsOp::Write { path: p2, content: st2 });
        proof {
            assert forall|j: int| #![trigger ts@[j]] 0 <= j < i + 1 implies {
                &&& op_is_rename(r@[3 * j], ts@[j].path@, orig_name_of(ts@[j].path@))
                &&& op_is_write(r@[3 * j + 1], staged_orig_name_of(ts@[j].path@), ts@[j].staged@)
                &&& op_is_write(r@[3 * j + 2], ts@[j].path@, ts@[j].staged@)
            } by {
                if j < i {
                    assert(ts@[j] == ts@[j]);
                }
            }
        }
        i += 1;
    }
    r
}

/// What preparation does to the model filesystem: each target's working
/// path now holds its staged content, its two backup artifacts exist with
/// the pre-run working content and the staged content respectively, and no
/// other path is touched.
pub proof fn lemma_prep_plan_effect(fs: FsModel, ops: Seq<FsOp>, ts: Seq<Target>)
    requires
        is_prep_plan(ops, ts),
        targets_wf(ts),
        targets_on_disk(fs, ts),
        backups_absent(fs, ts),
    ensures
        forall|i: int| #![trigger ts[i]] 0 <= i < ts.len() ==> {
            &&& ops_apply(fs, ops).contains_key(ts[i].path@)
            &&& ops_apply(fs, ops)[ts[i].path@] == ts[i].staged@
            &&& ops_apply(fs, ops).contains_key(orig_name_of(ts[i].path@))
            &&& ops_apply(fs, ops)[orig_name_of(ts[i].path@)] == ts[i].working@
            &&& ops_apply(fs, ops).contains_key(staged_orig_name_of(ts[i].path@))
            &&& ops_apply(fs, ops)[staged_orig_name_of(ts[i].path@)] == ts[i].staged@
        },
        forall|p: Seq<u8>| !(#[trigger] is_run_name(ts, p)) ==> {
            &&& ops_apply(fs, ops).contains_key(p) == fs.contains_key(p)
            &&& (fs.contains_key(p) ==> ops_apply(fs, ops)[p] == fs[p])
        },
    decreases ts.len(),
{
    if ts.len() == 0 {
        assert(ops.len() == 0);
    } else {
        let t0 = ts[0];
        assert(name_of_target(ts[0], t0.path@));
        let p0 = t0.path@;
        let o0 = orig_name_of(p0);
        let so0 = staged_orig_name_of(p0);
        lemma_name_self_distinct(p0);

        // The three leading operations, as the plan shape gives them.
        assert(op_is_rename(ops[0], p0, o0) && op_is_write(ops[1], so0, t0.staged@)
            && op_is_write(ops[2], p0, t0.staged@)) by {
            assert(ts[0] == ts[0]);
        }
        let fs_a = op_apply(fs, ops[0]);
        let fs_b = op_apply(fs_a, ops[1]);
        let fs_c = op_apply(fs_b, ops[2]);
        assert(fs.contains_key(p0)) by {
            assert(ts[0] == ts[0]);
        }
        assert(fs_c =~= fs.remove(p0).insert(o0, fs[p0]).insert(so0, t0.staged@).insert(
            p0,
            t0.staged@,
        ));

        // Unfold three applications.
        assert(ops_apply(fs, ops) == ops_apply(fs_c, ops.skip(3))) by {
            assert(ops.skip(1)[0] == ops[1]);
            assert(ops.skip(1).skip(1)[0] == ops[2]);
            assert(ops.skip(1).len() == ops.len() - 1);
            assert(ops.skip(1).skip(1).len() == ops.len() - 2);
            assert(ops_apply(fs, ops) == ops_apply(fs_a, ops.skip(1)));
            assert(ops_apply(fs_a, ops.skip(1)) == ops_apply(fs_b, ops.skip(1).skip(1)));
            assert(ops_apply(fs_b, ops.skip(1).skip(1)) == ops_apply(
                fs_c,
                ops.skip(1).skip(1).skip(1),
            ));
            assert(ops.skip(1).skip(1).skip(1) =~= ops.skip(3));
        }

        let rest = ts.skip(1);
        assert(is_prep_plan(ops.skip(3), rest)) by {
            assert forall|j: int| #![trigger rest[j]] 0 <= j < rest.len() implies {
                &&& op_is_rename(ops.skip(3)[3 * j], rest[j].path@, orig_name_of(rest[j].path@))
                &&& op_is_write(
                    ops.skip(3)[3 * j + 1],
                    staged_orig_name_of(rest[j].path@),
                    rest[j].staged@,
                )
                &&& op_is_write(ops.skip(3)[3 * j + 2], rest[j].path@, rest[j].staged@)
            } by {
                assert(rest[j] == ts[j + 1]);
                assert(ts[j + 1] == ts[j + 1]);
                assert(ops.skip(3)[3 * j] == ops[3 * (j + 1)]);
                assert(ops.skip(3)[3 * j + 1] == ops[3 * (j + 1) + 1]);
                assert(ops.skip(3)[3 * j + 2] == ops[3 * (j + 1) + 2]);
            }
        }
        assert(targets_wf(rest)) by {
            assert forall|i: int| 0 <= i < rest.len() implies crate::names::path_ok(
                #[trigger] rest[i].path@,
            ) by {
                assert(rest[i] == ts[i + 1]);
            }
            assert forall|i: int, j: int| 0 <= i < j < rest.len() implies rest[i].path@
                != rest[j].path@ by {
                assert(rest[i] == ts[i + 1]);
                assert(rest[j] == ts[j + 1]);
            }
        }
        assert(targets_on_disk(fs_c, rest)) by {
            assert forall|i: int| 0 <= i < rest.len() implies fs_c.contains_key(
                #[trigger] rest[i].path@,
            ) && fs_c[rest[i].path@] == rest[i].working@ by {
                assert(rest[i] == ts[i + 1]);
                assert(ts[i + 1] == ts[i + 1]);
                lemma_name_pair_distinct(p0, ts[i + 1].path@);
            }
        }
        assert(backups_absent(fs_c, rest)) by {
            assert forall|i: int| 0 <= i < rest.len() implies !fs_c.contains_key(
                orig_name_of(#[trigger] rest[i].path@),
            ) && !fs_c.contains_key(staged_orig_name_of(rest[i].path@)) by {
                assert(rest[i] == ts[i + 1]);
                assert(ts[i + 1] == ts[i + 1]);
                lemma_name_pair_distinct(p0, ts[i + 1].path@);
            }
        }
        lemma_prep_plan_effect(fs_c, ops.skip(3), rest);

        // The names of the first target are not names of the rest, so the
        // recursive frame clause carries their values through.
        assert(!is_run_name(rest, p0) && !is_run_name(rest, o0) && !is_run_name(rest, so0)) by {
            if is_run_name(rest, p0) {
                let i = choose|i: int| 0 <= i < rest.len() && #[trigger] name_of_target(
                    rest[i],
                    p0,
                );
                assert(rest[i] == ts[i + 1]);
                lemma_name_pair_distinct(ts[i + 1].path@, p0);
            }
            if is_run_name(rest, o0) {
                let i = choose|i: int| 0 <= i < rest.len() && #[trigger] name_of_target(
                    rest[i],
                    o0,
                );
                assert(rest[i] == ts[i + 1]);
                lemma_name_pair_distinct(ts[i + 1].path@, p0);
                lemma_name_self_distinct(ts[i + 1].path@);
            }
            if is_run_name(rest, so0) {
                let i = choose|i: int| 0 <= i < rest.len() && #[trigger] name_of_target(
                    rest[i],
                    so0,
                );
                assert(rest[i] == ts[i + 1]);
                lemma_name_pair_distinct(ts[i + 1].path@, p0);
                lemma_name_self_distinct(ts[i + 1].path@);
            }
        }

        assert forall|i: int| #![trigger ts[i]] 0 <= i < ts.len() implies {
            &&& ops_apply(fs, ops).contains_key(ts[i].path@)
            &&& ops_apply(fs, ops)[ts[i].path@] == ts[i].staged@
            &&& ops_apply(fs, ops).contains_key(orig_name_of(ts[i].path@))
            &&& ops_apply(fs, ops)[orig_name_of(ts[i].path@)] == ts[i].working@
            &&& ops_apply(fs, ops).contains_key(staged_orig_name_of(ts[i].path@))
            &&& ops_apply(fs, ops)[staged_orig_name_of(ts[i].path@)] == ts[i].staged@
        } by {
            if i == 0 {
                assert(ts[0] == ts[0]);
            } else {
                assert(rest[i - 1] == ts[i]);
            }
        }

        assert forall|p: Seq<u8>| !(#[trigger] is_run_name(ts, p)) implies {
            &&& ops_apply(fs, ops).contains_key(p) == fs.contains_key(p)
            &&& (fs.contains_key(p) ==> ops_apply(fs, ops)[p] == fs[p])
        } by {
            assert(!name_of_target(ts[0], p));
            assert(!is_run_name(rest, p)) by {
                if is_run_name(rest, p) {
                    let i = choose|i: int| 0 <= i < rest.len() && #[trigger] name_of_target(
                        rest[i],
                        p,
                    );
                    assert(rest[i] == ts[i + 1]);
                    assert(name_of_target(ts[i + 1], p));
                }
            }
        }
    }
}

/// The first `n` targets' slice of a rollback plan, run when the formatter
/// fails: for target `j`, delete the working copy (it holds formatter
/// leavings over staged content), delete the staged-content backup, and
/// rename the pre-run backup over the working path again.
pub open spec fn is_rollback_plan_upto(ops: Seq<FsOp>, ts: Seq<Target>, n: int) -> bool {
    &&& ops.len() == 3 * n
    &&& forall|j: int| #![trigger ts[j]] 0 <= j < n ==> {
        &&& op_is_remove(ops[3 * j], ts[j].path@)
        &&& op_is_remove(ops[3 * j + 1], staged_orig_name_of(ts[j].path@))
        &&& op_is_rename(ops[3 * j + 2], orig_name_of(ts[j].path@), ts[j].path@)
    }
}

/// The whole rollback plan, covering every target.
pub open spec fn is_rollback_plan(ops: Seq<FsOp>, ts: Seq<Target>) -> bool {
    is_rollback_plan_upto(ops, ts, ts.len() as int)
}

/// Build the rollback plan that discards all backup artifacts and puts
/// every target's pre-run working-tree content back in place.
pub fn rollback_plan(ts: &Vec<Target>) -> (r: Vec<FsOp>)
    ensures
        is_rollback_plan(r@, ts@),
{
    let mut r: Vec<FsOp> = Vec::new();
    let mut i: usize = 0;
    while i < ts.len()
        invariant
            i <= ts.len(),
            is_rollback_plan_upto(r@, ts@, i as int),
        decreases ts.len() - i,
    {
        let p = copy_bytes(&ts[i].path);
        let o = orig_name(&ts[i].path);
        let so = staged_orig_name(&ts[i].path);
        let p2 = copy_bytes(&ts[i].path);
        r.push(FsOp::Remove { path: p });
        r.push(FsOp::Remove { path: so });
        r.push(FsOp::Rename { from: o, to: p2 });
        proof {
            assert forall|j: int| #![trigger ts@[j]] 0 <= j < i + 1 implies {
                &&& op_is_remove(r@[3 * j], ts@[j].path@)
                &&& op_is_remove(r@[3 * j + 1], staged_orig_name_of(ts@[j].path@))
                &&& op_is_rename(r@[3 * j + 2], orig_name_of(ts@[j].path@), ts@[j].path@)
            } by {
                if j < i {
                    assert(ts@[j] == ts@[j]);
                }
            }
        }
        i += 1;
    }
    r
}

/// Rollback restores the pre-run model filesystem exactly, however the
/// failed formatter left the target files, provided the formatter touched
/// only names of the run and every pre-run backup is intact.
pub proof fn lemma_rollback_restores(fs: FsModel, fs2: FsModel, ops: Seq<FsOp>, ts: Seq<Target>)
    requires
        is_rollback_plan(ops, ts),
        targets_wf(ts),
        targets_on_disk(fs, ts),
        backups_absent(fs, ts),
        // every backup is intact: it still holds the pre-run working content
        forall|i: int| #![trigger ts[i]] 0 <= i < ts.len() ==> {
            &&& fs2.contains_key(orig_name_of(ts[i].path@))
            &&& fs2[orig_name_of(ts[i].path@)] == ts[i].working@
        },
        // outside the names of the run, nothing changed since the pre-run state
        forall|p: Seq<u8>| !(#[trigger] is_run_name(ts, p)) ==> {
            &&& fs2.contains_key(p) == fs.contains_key(p)
            &&& (fs.contains_key(p) ==> fs2[p] == fs[p])
        },
    ensures
        ops_apply(fs2, ops) == fs,
    decreases ts.len(),
{
    if ts.len() == 0 {
        assert(ops.len() == 0);
        assert_maps_equal!(fs2, fs, p => {
            assert(!is_run_name(ts, p));
            assert(fs2.contains_key(p) == fs.contains_key(p));
            assert(fs.contains_key(p) ==> fs2[p] == fs[p]);
        });
    } else {
        let t0 = ts[0];
        let p0 = t0.path@;
        let o0 = orig_name_of(p0);
        let so0 = staged_orig_name_of(p0);
        lemma_name_self_distinct(p0);
        assert(op_is_remove(ops[0], p0) && op_is_remove(ops[1], so0) && op_is_rename(
            ops[2],
            o0,
            p0,
        ) && fs2.contains_key(o0) && fs2[o0] == t0.working@ && fs.contains_key(p0) && fs[p0]
            == t0.working@) by {
            assert(ts[0] == ts[0]);
        }

        let fs_a = op_apply(fs2, ops[0]);
        let fs_b = op_apply(fs_a, ops[1]);
        let fs_c = op_apply(fs_b, ops[2]);
        assert(fs_c =~= fs2.remove(p0).remove(so0).remove(o0).insert(p0, fs2[o0]));

        assert(ops_apply(fs2, ops) == ops_apply(fs_c, ops.skip(3))) by {
            assert(ops.skip(1)[0] == ops[1]);
            assert(ops.skip(1).skip(1)[0] == ops[2]);
            assert(ops.skip(1).len() == ops.len() - 1);
            assert(ops.skip(1).skip(1).len() == ops.len() - 2);
            assert(ops_apply(fs2, ops) == ops_apply(fs_a, ops.skip(1)));
            assert(ops_apply(fs_a, ops.skip(1)) == ops_apply(fs_b, ops.skip(1).skip(1)));
            assert(ops_apply(fs_b, ops.skip(1).skip(1)) == ops_apply(
                fs_c,
                ops.skip(1).skip(1).skip(1),
            ));
            assert(ops.skip(1).skip(1).skip(1) =~= ops.skip(3));
        }

        let rest = ts.skip(1);
        assert(is_rollback_plan(ops.skip(3), rest)) by {
            assert forall|j: int| #![trigger rest[j]] 0 <= j < rest.len() implies {
                &&& op_is_remove(ops.skip(3)[3 * j], rest[j].path@)
                &&& op_is_remove(ops.skip(3)[3 * j + 1], staged_orig_name_of(rest[j].path@))
                &&& op_is_rename(ops.skip(3)[3 * j + 2], orig_name_of(rest[j].path@), rest[j].path@)
            } by {
                assert(rest[j] == ts[j + 1]);
                assert(ts[j + 1] == ts[j + 1]);
                assert(ops.skip(3)[3 * j] == ops[3 * (j + 1)]);
                assert(ops.skip(3)[3 * j + 1] == ops[3 * (j + 1) + 1]);
                assert(ops.skip(3)[3 * j + 2] == ops[3 * (j + 1) + 2]);
            }
        }
        assert(targets_wf(rest)) by {
            assert forall|i: int| 0 <= i < rest.len() implies crate::names::path_ok(
                #[trigger] rest[i].path@,
            ) by {
                assert(rest[i] == ts[i + 1]);
            }
            assert forall|i: int, j: int| 0 <= i < j < rest.len() implies rest[i].path@
                != rest[j].path@ by {
                assert(rest[i] == ts[i + 1]);
                assert(rest[j] == ts[j + 1]);
            }
        }
        assert(targets_on_disk(fs, rest) && backups_absent(fs, rest)) by {
            assert forall|i: int| #![trigger rest[i]] 0 <= i < rest.len() implies {
                &&& fs.contains_key(rest[i].path@)
                &&& fs[rest[i].path@] == rest[i].working@
                &&& !fs.contains_key(orig_name_of(rest[i].path@))
                &&& !fs.contains_key(staged_orig_name_of(rest[i].path@))
            } by {
                assert(rest[i] == ts[i + 1]);
                assert(ts[i + 1] == ts[i + 1]);
            }
        }
        assert forall|i: int| #![trigger rest[i]] 0 <= i < rest.len() implies {
            &&& fs_c.contains_key(orig_name_of(rest[i].path@))
            &&& fs_c[orig_name_of(rest[i].path@)] == rest[i].working@
        } by {
            assert(rest[i] == ts[i + 1]);
            assert(ts[i + 1] == ts[i + 1]);
            lemma_name_pair_distinct(p0, ts[i + 1].path@);
            lemma_name_self_distinct(ts[i + 1].path@);
        }
        assert forall|p: Seq<u8>| !(#[trigger] is_run_name(rest, p)) implies {
            &&& fs_c.contains_key(p) == fs.contains_key(p)
            &&& (fs.contains_key(p) ==> fs_c[p] == fs[p])
        } by {
            if p == p0 {
                assert(fs_c[p0] == t0.working@);
            } else if p == o0 || p == so0 {
            } else {
                assert(!is_run_name(ts, p)) by {
                    if is_run_name(ts, p) {
                        let i = choose|i: int| 0 <= i < ts.len() && #[trigger] name_of_target(
                            ts[i],
                            p,
                        );
                        if i == 0 {
                        } else {
                            assert(rest[i - 1] == ts[i]);
                            assert(name_of_target(rest[i - 1], p));
                        }
                    }
                }
            }
        }
        lemma_rollback_restores(fs, fs_c, ops.skip(3), rest);
    }
}

/// `p` is the path of some target.
pub open spec fn is_target_path(ts: Seq<Target>, p: Seq<u8>) -> bool {
    exists|i: int| 0 <= i < ts.len() && #[trigger] ts[i].path@ == p
}

/// A restore plan: for each dirty target, in target order, copy the pre-run
/// working-tree backup over the working path, so unstaged edits are back in
/// place before any formatting delta is applied. Clean targets keep the
/// formatted content that already sits at their working path.
pub open spec fn is_restore_plan(ops: Seq<FsOp>, ts: Seq<Target>) -> bool
    decreases ts.len(),
{
    if ts.len() == 0 {
        ops.len() == 0
    } else if is_clean(ts[0]) {
        is_restore_plan(ops, ts.skip(1))
    } else {
        &&& ops.len() > 0
        &&& op_is_copy(ops[0], orig_name_of(ts[0].path@), ts[0].path@)
        &&& is_restore_plan(ops.skip(1), ts.skip(1))
    }
}

/// A restore plan for `ts` extends to one more target by appending its
/// copy operation (dirty target) or nothing (clean target).
proof fn lemma_restore_plan_push(ops: Seq<FsOp>, ts: Seq<Target>, op: FsOp, t: Target)
    requires
        is_restore_plan(ops, ts),
    ensures
        is_clean(t) ==> is_restore_plan(ops, ts.push(t)),
        !is_clean(t) && op_is_copy(op, orig_name_of(t.path@), t.path@) ==> is_restore_plan(
            ops.push(op),
            ts.push(t),
        ),
    decreases ts.len(),
{
    if ts.len() == 0 {
        assert(ts.push(t)[0] == t);
        assert(ts.push(t).skip(1) =~= ts);
        assert(ops.push(op).skip(1) =~= ops);
        assert(ops.push(op)[0] == op);
    } else {
        lemma_restore_plan_push(if is_clean(ts[0]) {
            ops
        } else {
            ops.skip(1)
        }, ts.skip(1), op, t);
        assert(ts.push(t).skip(1) =~= ts.skip(1).push(t));
        assert(ts.push(t)[0] == ts[0]);
        if !is_clean(ts[0]) {
            assert(ops.push(op).skip(1) =~= ops.skip(1).push(op));
            assert(ops.push(op)[0] == ops[0]);
        }
    }
}

/// Build the restore plan for the backport stage.
pub fn restore_plan(ts: &Vec<Target>) -> (r: Vec<FsOp>)
    ensures
        is_restore_plan(r@, ts@),
{
    let mut r: Vec<FsOp> = Vec::new();
    let mut i: usize = 0;
    while i < ts.len()
        invariant
            i <= ts.len(),
            is_restore_plan(r@, ts@.take(i as int)),
        decreases ts.len() - i,
    {
        if !classify_clean(&ts[i]) {
            let o = orig_name(&ts[i].path);
            let p = copy_bytes(&ts[i].path);
            let ghost prev = r@;
            r.push(FsOp::CopyFile { from: o, to: p });
            proof {
                lemma_restore_plan_push(prev, ts@.take(i as int), r@.last(), ts@[i as int]);
                assert(ts@.take(i + 1) =~= ts@.take(i as int).push(ts@[i as int]));
                assert(r@ =~= prev.push(r@.last()));
            }
        } else {
            proof {
                lemma_restore_plan_push(
                    r@,
                    ts@.take(i as int),
                    vstd::pervasive::arbitrary::<FsOp>(),
                    ts@[i as int],
                );
                assert(ts@.take(i + 1) =~= ts@.take(i as int).push(ts@[i as int]));
            }
        }
        i += 1;
    }
    proof {
        assert(ts@.take(ts@.len() as int) =~= ts@);
    }
    r
}

/// What the restore plan does: every dirty target's working path holds the
/// pre-run working content again, every clean target and every path that is
/// not a target path is untouched.
pub proof fn lemma_restore_plan_effect(fs: FsModel, ops: Seq<FsOp>, ts: Seq<Target>)
    requires
        is_restore_plan(ops, ts),
        targets_wf(ts),
        // every pre-run backup is intact
        forall|i: int| #![trigger ts[i]] 0 <= i < ts.len() ==> {
            &&& fs.contains_key(orig_name_of(ts[i].path@))
            &&& fs[orig_name_of(ts[i].path@)] == ts[i].working@
        },
    ensures
        forall|i: int| #![trigger ts[i]] 0 <= i < ts.len() && !is_clean(ts[i]) ==> {
            &&& ops_apply(fs, ops).contains_key(ts[i].path@)
            &&& ops_apply(fs, ops)[ts[i].path@] == ts[i].working@
        },
        forall|p: Seq<u8>| !(#[trigger] is_target_path(ts, p)) ==> {
            &&& ops_apply(fs, ops).contains_key(p) == fs.contains_key(p)
            &&& (fs.contains_key(p) ==> ops_apply(fs, ops)[p] == fs[p])
        },
        forall|i: int| #![trigger ts[i]] 0 <= i < ts.len() && is_clean(ts[i]) ==> {
            &&& ops_apply(fs, ops).contains_key(ts[i].path@) == fs.contains_key(ts[i].path@)
            &&& (fs.contains_key(ts[i].path@) ==> ops_apply(fs, ops)[ts[i].path@]
                == fs[ts[i].path@])
        },
    decreases ts.len(),
{
    if ts.len() == 0 {
    } else {
        let t0 = ts[0];
        let p0 = t0.path@;
        let o0 = orig_name_of(p0);
        lemma_name_self_distinct(p0);
        assert(fs.contains_key(o0) && fs[o0] == t0.working@) by {
            assert(ts[0] == ts[0]);
        }
        let rest = ts.skip(1);
        assert(targets_wf(rest)) by {
            assert forall|i: int| 0 <= i < rest.len() implies crate::names::path_ok(
                #[trigger] rest[i].path@,
            ) by {
                assert(rest[i] == ts[i + 1]);
            }
            assert forall|i: int, j: int| 0 <= i < j < rest.len() implies rest[i].path@
                != rest[j].path@ by {
                assert(rest[i] == ts[i + 1]);
                assert(rest[j] == ts[j + 1]);
            }
        }

        let fs1 = if is_clean(t0) {
            fs
        } else {
            op_apply(fs, ops[0])
        };
        let ops1 = if is_clean(t0) {
            ops
        } else {
            ops.skip(1)
        };
        if !is_clean(t0) {
            assert(fs1 == fs.insert(p0, fs[o0]));
            assert(ops_apply(fs, ops) == ops_apply(fs1, ops1));
        }

        assert forall|i: int| #![trigger rest[i]] 0 <= i < rest.len() implies {
            &&& fs1.contains_key(orig_name_of(rest[i].path@))
            &&& fs1[orig_name_of(rest[i].path@)] == rest[i].working@
        } by {
            assert(rest[i] == ts[i + 1]);
            assert(ts[i + 1] == ts[i + 1]);
            lemma_name_pair_distinct(p0, ts[i + 1].path@);
            lemma_name_self_distinct(ts[i + 1].path@);
        }
        lemma_restore_plan_effect(fs1, ops1, rest);

        // Lift: p0 is not a target path of the rest.
        assert(!is_target_path(rest, p0)) by {
            if is_target_path(rest, p0) {
                let i = choose|i: int| 0 <= i < rest.len() && #[trigger] rest[i].path@ == p0;
                assert(rest[i] == ts[i + 1]);
            }
        }
        assert forall|i: int| #![trigger ts[i]] 0 <= i < ts.len() && !is_clean(ts[i]) implies {
            &&& ops_apply(fs, ops).contains_key(ts[i].path@)
            &&& ops_apply(fs, ops)[ts[i].path@] == ts[i].working@
        } by {
            if i == 0 {
            } else {
                assert(rest[i - 1] == ts[i]);
            }
        }
        assert forall|i: int| #![trigger ts[i]] 0 <= i < ts.len() && is_clean(ts[i]) implies {
            &&& ops_apply(fs, ops).contains_key(ts[i].path@) == fs.contains_key(ts[i].path@)
            &&& (fs.contains_key(ts[i].path@) ==> ops_apply(fs, ops)[ts[i].path@]
                == fs[ts[i].path@])
        } by {
            if i == 0 {
            } else {
                assert(rest[i - 1] == ts[i]);
                if !is_clean(t0) {
                    assert(ts[i].path@ != p0);
                }
            }
        }
        assert forall|p: Seq<u8>| !(#[trigger] is_target_path(ts, p)) implies {
            &&& ops_apply(fs, ops).contains_key(p) == fs.contains_key(p)
            &&& (fs.contains_key(p) ==> ops_apply(fs, ops)[p] == fs[p])
        } by {
            assert(ts[0].path@ != p);
            assert(!is_target_path(rest, p)) by {
                if is_target_path(rest, p) {
                    let i = choose|i: int| 0 <= i < rest.len() && #[trigger] rest[i].path@ == p;
                    assert(rest[i] == ts[i + 1]);
                    assert(ts[i + 1].path@ == p);
                }
            }
        }
    }
}

/// What the backport stage does with one target after a successful
/// formatter run.
#[derive(Clone, Copy, PartialEq, Eq, Structural, Debug)]
pub enum BackportStep {
    /// Clean target: its working path already holds exactly the formatted
    /// staged content, which is the desired final working-tree state.
    KeepFormatted,
    /// Dirty target whose staged content the formatter left unchanged: put
    /// the pre-run working copy back; the delta is empty, so there is
    /// nothing to patch.
    RestoreOnly,
    /// Dirty target with a nonempty formatting delta: put the pre-run
    /// working copy back, then apply the zero-context patch for this file.
    RestoreThenPatch,
}

/// The formatting delta for one target is empty: the formatter returned
/// the staged content unchanged.
pub open spec fn delta_empty(t: Target, out: Vec<u8>) -> bool {
    out@ == t.staged@
}

/// The backport decision for one target, from its classification and the
/// formatted content `out` the formatter returned for it.
pub open spec fn spec_backport_step(t: Target, out: Vec<u8>) -> BackportStep {
    if is_clean(t) {
        BackportStep::KeepFormatted
    } else if delta_empty(t, out) {
        BackportStep::RestoreOnly
    } else {
        BackportStep::RestoreThenPatch
    }
}

/// Decide, for every target, what the backport stage does with it.
pub fn backport_steps(ts: &Vec<Target>, outs: &Vec<Vec<u8>>) -> (r: Vec<BackportStep>)
    requires
        outs@.len() == ts@.len(),
    ensures
        r@.len() == ts@.len(),
        forall|i: int| 0 <= i < ts@.len() ==> r@[i] == spec_backport_step(
            #[trigger] ts@[i],
            outs@[i],
        ),
{
    let mut r: Vec<BackportStep> = Vec::new();
    let mut i: usize = 0;
    while i < ts.len()
        invariant
            i <= ts.len(),
            outs@.len() == ts@.len(),
            r@.len() == i,
            forall|j: int| 0 <= j < i ==> r@[j] == spec_backport_step(
                #[trigger] ts@[j],
                outs@[j],
            ),
        decreases ts.len() - i,
    {
        let step = if classify_clean(&ts[i]) {
            BackportStep::KeepFormatted
        } else if crate::bytes::bytes_eq(&outs[i], &ts[i].staged) {
            BackportStep::RestoreOnly
        } else {
            BackportStep::RestoreThenPatch
        };
        r.push(step);
        i += 1;
    }
    r
}

/// A cleanup plan: after the index is updated, delete both backup
/// artifacts of every target, in target order.
pub open spec fn is_cleanup_plan_upto(ops: Seq<FsOp>, ts: Seq<Target>, n: int) -> bool {
    &&& ops.len() == 2 * n
    &&& forall|j: int| #![trigger ts[j]] 0 <= j < n ==> {
        &&& op_is_remove(ops[2 * j], orig_name_of(ts[j].path@))
        &&& op_is_remove(ops[2 * j + 1], staged_orig_name_of(ts[j].path@))
    }
}

/// The whole cleanup plan, covering every target.
pub open spec fn is_cleanup_plan(ops: Seq<FsOp>, ts: Seq<Target>) -> bool {
    is_cleanup_plan_upto(ops, ts, ts.len() as int)
}

/// Build the cleanup plan.
pub fn cleanup_plan(ts: &Vec<Target>) -> (r: Vec<FsOp>)
    ensures
        is_cleanup_plan(r@, ts@),
{
    let mut r: Vec<FsOp> = Vec::new();
    let mut i: usize = 0;
    while i < ts.len()
        invariant
            i <= ts.len(),
            is_cleanup_plan_upto(r@, ts@, i as int),
        decreases ts.len() - i,
    {
        let o = orig_name(&ts[i].path);
        let so = staged_orig_name(&ts[i].path);
        r.push(FsOp::Remove { path: o });
        r.push(FsOp::Remove { path: so });
        proof {
            assert forall|j: int| #![trigger ts@[j]] 0 <= j < i + 1 implies {
                &&& op_is_remove(r@[2 * j], orig_name_of(ts@[j].path@))
                &&& op_is_remove(r@[2 * j + 1], staged_orig_name_of(ts@[j].path@))
            } by {
                if j < i {
                    assert(ts@[j] == ts@[j]);
                }
            }
        }
        i += 1;
    }
    r
}

/// `p` is a backup-artifact name of some target.
pub open spec fn is_backup_name(ts: Seq<Target>, p: Seq<u8>) -> bool {
    exists|i: int| #![trigger ts[i]] 0 <= i < ts.len() && (p == orig_name_of(ts[i].path@) || p
        == staged_orig_name_of(ts[i].path@))
}

/// What cleanup does: both backup artifacts of every target are gone, and
/// nothing else changes.
pub proof fn lemma_cleanup_plan_effect(fs: FsModel, ops: Seq<FsOp>, ts: Seq<Target>)
    requires
        is_cleanup_plan(ops, ts),
        targets_wf(ts),
    ensures
        forall|i: int| #![trigger ts[i]] 0 <= i < ts.len() ==> {
            &&& !ops_apply(fs, ops).contains_key(orig_name_of(ts[i].path@))
            &&& !ops_apply(fs, ops).contains_key(staged_orig_name_of(ts[i].path@))
        },
        forall|p: Seq<u8>| !(#[trigger] is_backup_name(ts, p)) ==> {
            &&& ops_apply(fs, ops).contains_key(p) == fs.contains_key(p)
            &&& (fs.contains_key(p) ==> ops_apply(fs, ops)[p] == fs[p])
        },
    decreases ts.len(),
{
    if ts.len() == 0 {
    } else {
        let t0 = ts[0];
        let p0 = t0.path@;
        let o0 = orig_name_of(p0);
        let so0 = staged_orig_name_of(p0);
        lemma_name_self_distinct(p0);
        assert(op_is_remove(ops[0], o0) && op_is_remove(ops[1], so0)) by {
            assert(ts[0] == ts[0]);
        }
        let fs_a = op_apply(fs, ops[0]);
        let fs_b = op_apply(fs_a, ops[1]);
        assert(fs_b == fs.remove(o0).remove(so0));
        assert(ops_apply(fs, ops) == ops_apply(fs_b, ops.skip(2))) by {
            assert(ops.skip(1)[0] == ops[1]);
            assert(ops.skip(1).len() == ops.len() - 1);
            assert(ops_apply(fs, ops) == ops_apply(fs_a, ops.skip(1)));
            assert(ops_apply(fs_a, ops.skip(1)) == ops_apply(fs_b, ops.skip(1).skip(1)));
            assert(ops.skip(1).skip(1) =~= ops.skip(2));
        }
        let rest = ts.skip(1);
        assert(is_cleanup_plan(ops.skip(2), rest)) by {
            assert forall|j: int| #![trigger rest[j]] 0 <= j < rest.len() implies {
                &&& op_is_remove(ops.skip(2)[2 * j], orig_name_of(rest[j].path@))
                &&& op_is_remove(ops.skip(2)[2 * j + 1], staged_orig_name_of(rest[j].path@))
            } by {
                assert(rest[j] == ts[j + 1]);
                assert(ts[j + 1] == ts[j + 1]);
                assert(ops.skip(2)[2 * j] == ops[2 * (j + 1)]);
                assert(ops.skip(2)[2 * j + 1] == ops[2 * (j + 1) + 1]);
            }
        }
        assert(targets_wf(rest)) by {
            assert forall|i: int| 0 <= i < rest.len() implies crate::names::path_ok(
                #[trigger] rest[i].path@,
            ) by {
                assert(rest[i] == ts[i + 1]);
            }
            assert forall|i: int, j: int| 0 <= i < j < rest.len() implies rest[i].path@
                != rest[j].path@ by {
                assert(rest[i] == ts[i + 1]);
                assert(rest[j] == ts[j + 1]);
            }
        }
        lemma_cleanup_plan_effect(fs_b, ops.skip(2), rest);
        assert(!is_backup_name(rest, o0) && !is_backup_name(rest, so0)) by {
            if is_backup_name(rest, o0) {
                let i = choose|i: int| #![trigger rest[i]] 0 <= i < rest.len() && (o0
                    == orig_name_of(rest[i].path@) || o0 == staged_orig_name_of(rest[i].path@));
                assert(rest[i] == ts[i + 1]);
                lemma_name_pair_distinct(p0, ts[i + 1].path@);
            }
            if is_backup_name(rest, so0) {
                let i = choose|i: int| #![trigger rest[i]] 0 <= i < rest.len() && (so0
                    == orig_name_of(rest[i].path@) || so0 == staged_orig_name_of(rest[i].path@));
                assert(rest[i] == ts[i + 1]);
                lemma_name_pair_distinct(p0, ts[i + 1].path@);
            }
        }
        assert forall|i: int| #![trigger ts[i]] 0 <= i < ts.len() implies {
            &&& !ops_apply(fs, ops).contains_key(orig_name_of(ts[i].path@))
            &&& !ops_apply(fs, ops).contains_key(staged_orig_name_of(ts[i].path@))
        } by {
            if i == 0 {
            } else {
                assert(rest[i - 1] == ts[i]);
            }
        }
        assert forall|p: Seq<u8>| !(#[trigger] is_backup_name(ts, p)) implies {
            &&& ops_apply(fs, ops).contains_key(p) == fs.contains_key(p)
            &&& (fs.contains_key(p) ==> ops_apply(fs, ops)[p] == fs[p])
        } by {
            assert(ts[0] == ts[0]);
            assert(p != o0 && p != so0);
            assert(!is_backup_name(rest, p)) by {
                if is_backup_name(rest, p) {
                    let i = choose|i: int| #![trigger rest[i]] 0 <= i < rest.len() && (p
                        == orig_name_of(rest[i].path@) || p == staged_orig_name_of(
                        rest[i].path@,
                    ));
                    assert(rest[i] == ts[i + 1]);
                    assert(ts[i + 1] == ts[i + 1]);
                }
            }
        }
    }
}

} // verus!
