use vstd::prelude::*;

verus! {

/// Every requested file has a staged entry in the index.
pub open spec fn all_staged(staged: Seq<bool>) -> bool {
    forall|i: int| 0 <= i < staged.len() ==> staged[i]
}

/// The staging precondition. `staged[i]` says whether the `i`-th
/// requested file has a staged entry in the index. The result lists the
/// indices of every file that is not staged, in ascending order; the run
/// may proceed only if it is empty, and nothing has been planned or touched
/// before this check.
pub fn unstaged_indices(staged: &Vec<bool>) -> (r: Vec<usize>)
    ensures
        forall|k: int| 0 <= k < r@.len() ==> (#[trigger] r@[k]) < staged@.len()
            && !staged@[r@[k] as int],
        forall|i: int| 0 <= i < staged@.len() && !(#[trigger] staged@[i]) ==> r@.contains(
            i as usize,
        ),
        forall|k1: int, k2: int| 0 <= k1 < k2 < r@.len() ==> r@[k1] < r@[k2],
        r@.len() == 0 <==> all_staged(staged@),
{
    let mut r: Vec<usize> = Vec::new();
    let mut i: usize = 0;
    while i < staged.len()
        invariant
            i <= staged.len(),
            forall|k: int| 0 <= k < r@.len() ==> (#[trigger] r@[k]) < i && !staged@[r@[k] as int],
            forall|ii: int| 0 <= ii < i && !(#[trigger] staged@[ii]) ==> r@.contains(ii as usize),
            forall|k1: int, k2: int| 0 <= k1 < k2 < r@.len() ==> r@[k1] < r@[k2],
        decreases staged.len() - i,
    {
        if !staged[i] {
            let ghost prev = r@;
            r.push(i);
            proof {
                assert(r@[r@.len() - 1] == i);
                assert forall|ii: int| 0 <= ii < i + 1 && !(#[trigger] staged@[ii]) implies r@
                    .contains(ii as usize) by {
                    if ii < i {
                        let k = choose|k: int| 0 <= k < prev.len() && prev[k] == ii as usize;
                        assert(r@[k] == ii as usize);
                    } else {
                        assert(r@[r@.len() - 1] == ii as usize);
                    }
                }
            }
        }
        i += 1;
    }
    proof {
        if r@.len() == 0 {
            assert forall|i2: int| 0 <= i2 < staged@.len() implies staged@[i2] by {
                if !staged@[i2] {
                    assert(r@.contains(i2 as usize));
                }
            }
        } else {
            assert(!staged@[r@[0] as int]);
        }
    }
    r
}

} // verus!
