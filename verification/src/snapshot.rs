use vstd::prelude::*;
use crate::bytes::copy_bytes;
use crate::plan::is_target_path;
use crate::target::{find_target, target_paths_distinct, Target};

verus! {

/// One entry of an index snapshot: a repository-relative path, the content
/// of the blob it points at, and its file mode. Under content addressing a
/// blob is determined by its bytes, so the snapshot holds content where the
/// repository holds a blob id.
pub struct Entry {
    pub path: Vec<u8>,
    pub content: Vec<u8>,
    pub mode: u32,
}

/// An index (or tree) snapshot: an ordered collection of entries with
/// pairwise distinct paths.
pub struct Snapshot {
    pub entries: Vec<Entry>,
}

/// Well-formedness of a snapshot: entry paths are pairwise distinct.
pub open spec fn snapshot_wf(es: Seq<Entry>) -> bool {
    forall|i: int, j: int| 0 <= i < j < es.len() ==> es[i].path@ != es[j].path@
}

/// The commit relation: `new` is `old` with exactly the target entries'
/// contents replaced by the formatted contents, every path and mode kept,
/// and every non-target entry kept byte for byte.
pub open spec fn committed_entries(
    old_es: Seq<Entry>,
    new_es: Seq<Entry>,
    ts: Seq<Target>,
    outs: Seq<Vec<u8>>,
) -> bool {
    &&& new_es.len() == old_es.len()
    &&& forall|k: int| #![trigger new_es[k]] 0 <= k < old_es.len() ==> {
        &&& new_es[k].path@ == old_es[k].path@
        &&& new_es[k].mode == old_es[k].mode
    }
    &&& forall|k: int, i: int|
        0 <= k < old_es.len() && 0 <= i < ts.len() && (#[trigger] old_es[k].path@) == (
        #[trigger] ts[i].path@) ==> new_es[k].content@ == outs[i]@
    &&& forall|k: int| #![trigger new_es[k]] 0 <= k < old_es.len() && !is_target_path(
        ts,
        old_es[k].path@,
    ) ==> new_es[k].content@ == old_es[k].content@
}

impl Snapshot {
    /// Rebuild this snapshot with each target path's entry pointing at the
    /// formatted content `outs[i]` of target `i`. This is the only
    /// operation of the run that yields a new index: it replaces all
    /// target entries in one step, so the persisted index reflects either
    /// every formatted blob or, if the run never gets here, none.
    pub fn with_formatted(&self, ts: &Vec<Target>, outs: &Vec<Vec<u8>>) -> (r: Snapshot)
        requires
            target_paths_distinct(ts@),
            outs@.len() == ts@.len(),
        ensures
            committed_entries(self.entries@, r.entries@, ts@, outs@),
            snapshot_wf(self.entries@) ==> snapshot_wf(r.entries@),
    {
        let mut es: Vec<Entry> = Vec::new();
        let mut k: usize = 0;
        while k < self.entries.len()
            invariant
                k <= self.entries.len(),
                es@.len() == k,
                target_paths_distinct(ts@),
                outs@.len() == ts@.len(),
                forall|kk: int| #![trigger es@[kk]] 0 <= kk < k ==> {
                    &&& es@[kk].path@ == self.entries@[kk].path@
                    &&& es@[kk].mode == self.entries@[kk].mode
                },
                forall|kk: int, i: int|
                    0 <= kk < k && 0 <= i < ts@.len() && (#[trigger] self.entries@[kk].path@) == (
                    #[trigger] ts@[i].path@) ==> es@[kk].content@ == outs@[i]@,
                forall|kk: int| #![trigger es@[kk]] 0 <= kk < k && !is_target_path(
                    ts@,
                    self.entries@[kk].path@,
                ) ==> es@[kk].content@ == self.entries@[kk].content@,
            decreases self.entries.len() - k,
        {
            let entry = &self.entries[k];
            let content: Vec<u8> = match find_target(ts, &entry.path) {
                Option::Some(i) => copy_bytes(&outs[i]),
                Option::None => copy_bytes(&entry.content),
            };
            let new_entry = Entry { path: copy_bytes(&entry.path), content, mode: entry.mode };
            es.push(new_entry);
            proof {
                let kk = k as int;
                assert(es@[kk].path@ == self.entries@[kk].path@);
                if is_target_path(ts@, self.entries@[kk].path@) {
                    let w = choose|i: int| 0 <= i < ts@.len() && #[trigger] ts@[i].path@
                        == self.entries@[kk].path@;
                    assert forall|i: int|
                        0 <= i < ts@.len() && self.entries@[kk].path@ == (
                        #[trigger] ts@[i].path@) implies es@[kk].content@ == outs@[i]@ by {
                        assert(i == w || ts@[i].path@ != ts@[w].path@);
                    }
                }
            }
            k += 1;
        }
        Snapshot { entries: es }
    }
}

/// If the formatter changed nothing (every formatted content equals the
/// staged content it was given) and every target entry of the snapshot
/// holds that same staged content, the committed snapshot is byte-identical
/// to the old one: same paths, same contents, same modes.
pub proof fn lemma_commit_noop(
    old_es: Seq<Entry>,
    new_es: Seq<Entry>,
    ts: Seq<Target>,
    outs: Seq<Vec<u8>>,
)
    requires
        committed_entries(old_es, new_es, ts, outs),
        outs.len() == ts.len(),
        forall|i: int| #![trigger ts[i]] 0 <= i < ts.len() ==> outs[i]@ == ts[i].staged@,
        // the snapshot is where the staged content came from
        forall|k: int, i: int|
            0 <= k < old_es.len() && 0 <= i < ts.len() && (#[trigger] old_es[k].path@) == (
            #[trigger] ts[i].path@) ==> old_es[k].content@ == ts[i].staged@,
    ensures
        new_es.len() == old_es.len(),
        forall|k: int| #![trigger new_es[k]] 0 <= k < old_es.len() ==> {
            &&& new_es[k].path@ == old_es[k].path@
            &&& new_es[k].content@ == old_es[k].content@
            &&& new_es[k].mode == old_es[k].mode
        },
{
    assert forall|k: int| #![trigger new_es[k]] 0 <= k < old_es.len() implies {
        &&& new_es[k].path@ == old_es[k].path@
        &&& new_es[k].content@ == old_es[k].content@
        &&& new_es[k].mode == old_es[k].mode
    } by {
        if is_target_path(ts, old_es[k].path@) {
            let i = choose|i: int| 0 <= i < ts.len() && #[trigger] ts[i].path@ == old_es[k].path@;
            assert(ts[i] == ts[i]);
            assert(new_es[k].content@ == outs[i]@);
        }
    }
}

} // verus!
