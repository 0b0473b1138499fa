use vstd::prelude::*;

use crate::block::{hash_eq, Digest};

verus! {

broadcast use vstd::seq_lib::group_seq_properties;

/// Decides whether `v` holds `h`.
pub fn contains_digest(v: &Vec<Digest>, h: &Digest) -> (r: bool)
    ensures
        r == v@.contains(*h),
{
    let mut k: usize = 0;
    while k < v.len()
        invariant
            k <= v@.len(),
            forall|m: int| 0 <= m < k ==> v@[m] != *h,
        decreases v@.len() - k,
    {
        if hash_eq(&v[k], h) {
            assert(v@[k as int] == *h);
            return true;
        }
        k = k + 1;
    }
    false
}

/// Appends every digest of `src` to `dst`.
pub fn append_digests(dst: &mut Vec<Digest>, src: &Vec<Digest>)
    ensures
        final(dst)@.to_set() == old(dst)@.to_set().union(src@.to_set()),
{
    let ghost start = dst@.to_set();
    let mut k: usize = 0;
    while k < src.len()
        invariant
            k <= src@.len(),
            dst@.to_set() == start.union(src@.subrange(0, k as int).to_set()),
        decreases src@.len() - k,
    {
        let ghost before = dst@;
        dst.push(src[k]);
        proof {
            assert(src@.subrange(0, k + 1) =~= src@.subrange(0, k as int).push(src@[k as int]));
            before.lemma_push_to_set_commute(src@[k as int]);
            src@.subrange(0, k as int).lemma_push_to_set_commute(src@[k as int]);
            assert(dst@.to_set() =~= start.union(src@.subrange(0, k + 1).to_set()));
        }
        k = k + 1;
    }
    assert(src@.subrange(0, src@.len() as int) =~= src@);
}

/// The digests of `unspent` not in `spent`, followed by those of `created`
/// not already kept, each once.
pub fn splice_digests(unspent: &Vec<Digest>, spent: &Vec<Digest>, created: &Vec<Digest>) -> (r:
    Vec<Digest>)
    ensures
        r@.no_duplicates(),
        r@.to_set() == unspent@.to_set().difference(spent@.to_set()).union(created@.to_set()),
{
    let mut out: Vec<Digest> = Vec::new();
    let mut k: usize = 0;
    while k < unspent.len()
        invariant
            k <= unspent@.len(),
            out@.no_duplicates(),
            out@.to_set() == unspent@.subrange(0, k as int).to_set().difference(spent@.to_set()),
        decreases unspent@.len() - k,
    {
        let h = unspent[k];
        proof {
            assert(unspent@.subrange(0, k + 1) =~= unspent@.subrange(0, k as int).push(h));
            unspent@.subrange(0, k as int).lemma_push_to_set_commute(h);
        }
        if !contains_digest(spent, &h) && !contains_digest(&out, &h) {
            let ghost before = out@;
            out.push(h);
            proof {
                before.lemma_push_to_set_commute(h);
            }
        }
        assert(out@.to_set() =~= unspent@.subrange(0, k + 1).to_set().difference(
            spent@.to_set(),
        ));
        k = k + 1;
    }
    assert(unspent@.subrange(0, unspent@.len() as int) =~= unspent@);
    let ghost kept = out@.to_set();
    let mut k: usize = 0;
    while k < created.len()
        invariant
            k <= created@.len(),
            out@.no_duplicates(),
            out@.to_set() == kept.union(created@.subrange(0, k as int).to_set()),
        decreases created@.len() - k,
    {
        let h = created[k];
        proof {
            assert(created@.subrange(0, k + 1) =~= created@.subrange(0, k as int).push(h));
            created@.subrange(0, k as int).lemma_push_to_set_commute(h);
        }
        if !contains_digest(&out, &h) {
            let ghost before = out@;
            out.push(h);
            proof {
                before.lemma_push_to_set_commute(h);
            }
        }
        assert(out@.to_set() =~= kept.union(created@.subrange(0, k + 1).to_set()));
        k = k + 1;
    }
    assert(created@.subrange(0, created@.len() as int) =~= created@);
    out
}

} // verus!
