use vstd::prelude::*;
use crate::bytes::{bytes_eq, bytes_ends_with, copy_bytes, ends_with};

verus! {

/// The suffix appended to a target path to name the backup of its pre-run
/// working-tree content: ".orig" as bytes.
pub open spec fn orig_suffix() -> Seq<u8> {
    seq![46u8, 111u8, 114u8, 105u8, 103u8]
}

/// The suffix appended to a target path to name the scratch copy of its
/// staged content: ".staged" as bytes.
pub open spec fn staged_suffix() -> Seq<u8> {
    seq![46u8, 115u8, 116u8, 97u8, 103u8, 101u8, 100u8]
}

/// The backup artifact holding a target's pre-run working-tree content.
pub open spec fn orig_name_of(p: Seq<u8>) -> Seq<u8> {
    p + orig_suffix()
}

/// The backup artifact holding a target's pre-format staged content.
pub open spec fn staged_orig_name_of(p: Seq<u8>) -> Seq<u8> {
    p + staged_suffix() + orig_suffix()
}

fn orig_suffix_vec() -> (r: Vec<u8>)
    ensures
        r@ == orig_suffix(),
{
    let mut v: Vec<u8> = Vec::new();
    v.push(46u8);
    v.push(111u8);
    v.push(114u8);
    v.push(105u8);
    v.push(103u8);
    proof {
        assert(v@ =~= orig_suffix());
    }
    v
}

fn staged_suffix_vec() -> (r: Vec<u8>)
    ensures
        r@ == staged_suffix(),
{
    let mut v: Vec<u8> = Vec::new();
    v.push(46u8);
    v.push(115u8);
    v.push(116u8);
    v.push(97u8);
    v.push(103u8);
    v.push(101u8);
    v.push(100u8);
    proof {
        assert(v@ =~= staged_suffix());
    }
    v
}

/// Derive the name of the pre-run working-tree backup for `path`.
pub fn orig_name(path: &Vec<u8>) -> (r: Vec<u8>)
    ensures
        r@ == orig_name_of(path@),
{
    let mut r = copy_bytes(path);
    let suf = orig_suffix_vec();
    let mut i: usize = 0;
    while i < suf.len()
        invariant
            i <= suf.len(),
            suf@ == orig_suffix(),
            r@ =~= path@ + suf@.take(i as int),
        decreases suf.len() - i,
    {
        r.push(suf[i]);
        i += 1;
    }
    proof {
        assert(r@ =~= orig_name_of(path@));
    }
    r
}

/// Derive the name of the pre-format staged-content backup for `path`.
pub fn staged_orig_name(path: &Vec<u8>) -> (r: Vec<u8>)
    ensures
        r@ == staged_orig_name_of(path@),
{
    let mut r = copy_bytes(path);
    let suf = staged_suffix_vec();
    let mut i: usize = 0;
    while i < suf.len()
        invariant
            i <= suf.len(),
            suf@ == staged_suffix(),
            r@ =~= path@ + suf@.take(i as int),
        decreases suf.len() - i,
    {
        r.push(suf[i]);
        i += 1;
    }
    let suf2 = orig_suffix_vec();
    let mut j: usize = 0;
    while j < suf2.len()
        invariant
            j <= suf2.len(),
            suf2@ == orig_suffix(),
            r@ =~= path@ + staged_suffix() + suf2@.take(j as int),
        decreases suf2.len() - j,
    {
        r.push(suf2[j]);
        j += 1;
    }
    proof {
        assert(r@ =~= staged_orig_name_of(path@));
    }
    r
}

/// If appending the same suffix to two sequences yields the same sequence,
/// the two sequences were equal.
pub proof fn lemma_append_cancel(a: Seq<u8>, b: Seq<u8>, s: Seq<u8>)
    requires
        a + s == b + s,
    ensures
        a == b,
{
    assert((a + s).len() == a.len() + s.len());
    assert((b + s).len() == b.len() + s.len());
    assert(a.len() == b.len());
    assert forall|i: int| 0 <= i < a.len() implies a[i] == b[i] by {
        assert((a + s)[i] == a[i]);
        assert((b + s)[i] == b[i]);
    }
    assert(a =~= b);
}

/// Appending a suffix yields a sequence that ends with that suffix.
pub proof fn lemma_append_gives_suffix(a: Seq<u8>, s: Seq<u8>)
    ensures
        ends_with(a + s, s),
{
    assert((a + s).skip((a + s).len() - s.len()) =~= s);
}

/// A path is acceptable as a formatting target only if it cannot collide
/// with a backup-artifact name derived from some target path.
pub open spec fn path_ok(p: Seq<u8>) -> bool {
    !ends_with(p, orig_suffix()) && !ends_with(p, staged_suffix())
}

/// A target path never equals one of its own backup names, and the two
/// backup names differ from each other.
pub proof fn lemma_name_self_distinct(p: Seq<u8>)
    ensures
        p != orig_name_of(p),
        p != staged_orig_name_of(p),
        orig_name_of(p) != staged_orig_name_of(p),
{
    assert(orig_name_of(p).len() == p.len() + 5);
    assert(staged_orig_name_of(p).len() == p.len() + 12);
}

/// For two distinct acceptable paths, the six derived names and the two
/// paths are pairwise distinct.
pub proof fn lemma_name_pair_distinct(p: Seq<u8>, q: Seq<u8>)
    requires
        p != q,
        path_ok(p),
        path_ok(q),
    ensures
        orig_name_of(p) != orig_name_of(q),
        staged_orig_name_of(p) != staged_orig_name_of(q),
        p != orig_name_of(q),
        p != staged_orig_name_of(q),
        orig_name_of(p) != q,
        staged_orig_name_of(p) != q,
        orig_name_of(p) != staged_orig_name_of(q),
        staged_orig_name_of(p) != orig_name_of(q),
{
    if orig_name_of(p) == orig_name_of(q) {
        lemma_append_cancel(p, q, orig_suffix());
    }
    if staged_orig_name_of(p) == staged_orig_name_of(q) {
        lemma_append_cancel(p + staged_suffix(), q + staged_suffix(), orig_suffix());
        lemma_append_cancel(p, q, staged_suffix());
    }
    if p == orig_name_of(q) {
        lemma_append_gives_suffix(q, orig_suffix());
    }
    if p == staged_orig_name_of(q) {
        lemma_append_gives_suffix(q + staged_suffix(), orig_suffix());
    }
    if orig_name_of(p) == q {
        lemma_append_gives_suffix(p, orig_suffix());
    }
    if staged_orig_name_of(p) == q {
        lemma_append_gives_suffix(p + staged_suffix(), orig_suffix());
    }
    if orig_name_of(p) == staged_orig_name_of(q) {
        lemma_append_cancel(p, q + staged_suffix(), orig_suffix());
        lemma_append_gives_suffix(q, staged_suffix());
    }
    if staged_orig_name_of(p) == orig_name_of(q) {
        lemma_append_cancel(p + staged_suffix(), q, orig_suffix());
        lemma_append_gives_suffix(p, staged_suffix());
    }
}

/// Well-formedness of the first `n` requested target paths: pairwise
/// distinct and individually acceptable.
pub open spec fn paths_wf_upto(ps: Seq<Vec<u8>>, n: int) -> bool {
    &&& forall|i: int, j: int| 0 <= i < j < n ==> ps[i]@ != ps[j]@
    &&& forall|i: int| 0 <= i < n ==> path_ok(#[trigger] ps[i]@)
}

/// Well-formedness of a requested target-path set: no duplicates, and no
/// path that could collide with a derived backup-artifact name.
pub open spec fn paths_wf(ps: Seq<Vec<u8>>) -> bool {
    paths_wf_upto(ps, ps.len() as int)
}

/// Validate a requested target-path set before any file is touched.
pub fn validate_paths(ps: &Vec<Vec<u8>>) -> (r: bool)
    ensures
        r == paths_wf(ps@),
{
    let osuf = orig_suffix_vec();
    let ssuf = staged_suffix_vec();
    let mut i: usize = 0;
    while i < ps.len()
        invariant
            i <= ps.len(),
            osuf@ == orig_suffix(),
            ssuf@ == staged_suffix(),
            paths_wf_upto(ps@, i as int),
        decreases ps.len() - i,
    {
        if bytes_ends_with(&ps[i], &osuf) || bytes_ends_with(&ps[i], &ssuf) {
            assert(!path_ok(ps@[i as int]@));
            return false;
        }
        let mut j: usize = 0;
        while j < i
            invariant
                j <= i,
                i < ps.len(),
                forall|k: int| 0 <= k < j ==> ps@[k]@ != ps@[i as int]@,
            decreases i - j,
        {
            if bytes_eq(&ps[j], &ps[i]) {
                return false;
            }
            j += 1;
        }
        i += 1;
    }
    true
}

} // verus!
