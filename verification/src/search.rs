use vstd::prelude::*;
use crate::bytes::prefix_bytes;

verus! {

/// `k` is the index of the last path separator of `s` that can split off a
/// parent directory: a slash, not the leading byte, with no slash after it.
pub open spec fn is_last_slash(s: Seq<u8>, k: int) -> bool {
    &&& 1 <= k < s.len()
    &&& s[k] == 47u8
    &&& forall|m: int| k < m < s.len() ==> s[m] != 47u8
}

/// One decision step of the upward search for the repository root: the
/// parent directory of `path`, or nothing when the root of the walk is
/// reached. The caller tests each directory for the repository marker and
/// walks upward through these parents; termination follows from the result
/// always being shorter than its argument.
pub fn parent_dir(path: &Vec<u8>) -> (r: Option<Vec<u8>>)
    ensures
        match r {
            Option::Some(p) => p@.len() < path@.len(),
            Option::None => true,
        },
        forall|k: int|
            is_last_slash(path@, k) ==> (r matches Option::Some(p) && p@ == path@.take(k)),
        (forall|k: int| !is_last_slash(path@, k)) && path@.len() >= 2 && path@[0] == 47u8 ==> (
        r matches Option::Some(p) && p@ == path@.take(1)),
        (forall|k: int| !is_last_slash(path@, k)) && !(path@.len() >= 2 && path@[0] == 47u8)
            ==> r is None,
{
    if path.len() <= 1 {
        return Option::None;
    }
    let mut m: usize = path.len();
    while m > 1
        invariant
            1 <= m <= path@.len(),
            path@.len() > 1,
            forall|q: int| m <= q < path@.len() ==> path@[q] != 47u8,
        decreases m,
    {
        m -= 1;
        if path[m] == 47 {
            proof {
                assert(is_last_slash(path@, m as int));
                assert forall|k: int| is_last_slash(path@, k) implies k == m as int by {
                    if k < m as int {
                        assert(path@[m as int] != 47u8);
                    } else if k > m as int {
                        assert(path@[k] != 47u8);
                    }
                }
            }
            let p = prefix_bytes(path, m);
            return Option::Some(p);
        }
    }
    if path[0] == 47 {
        let p = prefix_bytes(path, 1);
        proof {
            assert forall|k: int| true implies !is_last_slash(path@, k) by {
                if 1 <= k < path@.len() {
                    assert(path@[k] != 47u8);
                }
            }
        }
        Option::Some(p)
    } else {
        proof {
            assert forall|k: int| true implies !is_last_slash(path@, k) by {
                if 1 <= k < path@.len() {
                    assert(path@[k] != 47u8);
                }
            }
        }
        Option::None
    }
}

} // verus!
