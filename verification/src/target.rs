use vstd::prelude::*;
use crate::bytes::bytes_eq;
use crate::names::{
    orig_name_of, path_ok, paths_wf, staged_orig_name_of,
};

verus! {

/// One file requested for formatting, as the engine sees it: its path
/// relative to the repository root, the content of its staged blob, and the
/// content of its pre-run working-tree copy.
pub struct Target {
    pub path: Vec<u8>,
    pub staged: Vec<u8>,
    pub working: Vec<u8>,
}

/// A target is clean when its working-tree content equals its staged
/// content; otherwise it carries unstaged edits and is dirty.
pub open spec fn is_clean(t: Target) -> bool {
    t.staged@ == t.working@
}

/// Classify one target: `true` means the working-tree copy equals the
/// staged content, so no backport of a formatting delta is ever needed
/// for it.
pub fn classify_clean(t: &Target) -> (r: bool)
    ensures
        r == is_clean(*t),
{
    bytes_eq(&t.staged, &t.working)
}

/// The paths of a target set are pairwise distinct.
pub open spec fn target_paths_distinct(ts: Seq<Target>) -> bool {
    forall|i: int, j: int| 0 <= i < j < ts.len() ==> ts[i].path@ != ts[j].path@
}

/// The paths of a target set are pairwise distinct and each is acceptable
/// (cannot collide with a derived backup-artifact name).
pub open spec fn targets_wf(ts: Seq<Target>) -> bool {
    &&& forall|i: int, j: int| 0 <= i < j < ts.len() ==> ts[i].path@ != ts[j].path@
    &&& forall|i: int| 0 <= i < ts.len() ==> path_ok(#[trigger] ts[i].path@)
}

/// Find the target whose path is `p`, if any.
pub fn find_target(ts: &Vec<Target>, p: &Vec<u8>) -> (r: Option<usize>)
    ensures
        match r {
            Option::Some(i) => i < ts@.len() && ts@[i as int].path@ == p@,
            Option::None => forall|i: int| 0 <= i < ts@.len() ==> (#[trigger] ts@[i].path@) != p@,
        },
{
    let mut j: usize = 0;
    while j < ts.len()
        invariant
            j <= ts.len(),
            forall|k: int| 0 <= k < j ==> (#[trigger] ts@[k].path@) != p@,
        decreases ts.len() - j,
    {
        if crate::bytes::bytes_eq(&ts[j].path, p) {
            return Option::Some(j);
        }
        j += 1;
    }
    Option::None
}

/// A path is one of the names the run may touch for some target: the
/// target path itself or one of its two backup-artifact names.
pub open spec fn is_run_name(ts: Seq<Target>, p: Seq<u8>) -> bool {
    exists|i: int| 0 <= i < ts.len() && #[trigger] name_of_target(ts[i], p)
}

/// `p` is the path of `t` or one of `t`'s backup-artifact names.
pub open spec fn name_of_target(t: Target, p: Seq<u8>) -> bool {
    p == t.path@ || p == orig_name_of(t.path@) || p == staged_orig_name_of(t.path@)
}

/// Targets validated as a path set are well-formed as a target set.
pub proof fn lemma_paths_wf_targets(ps: Seq<Vec<u8>>, ts: Seq<Target>)
    requires
        paths_wf(ps),
        ts.len() == ps.len(),
        forall|i: int| 0 <= i < ts.len() ==> #[trigger] ts[i].path@ == ps[i]@,
    ensures
        targets_wf(ts),
{
}

} // verus!
