//! Lists of 32-byte hashes viewed as sets: membership, subset and
//! disjointness tests, and the set-algebra updates the ledger's commit step
//! performs. A list may hold a hash more than once; the view collapses
//! repetitions, and removal removes every occurrence.

use vstd::prelude::*;
use crate::bytes::bytes_eq;

verus! {

/// The set of byte sequences a list of hashes holds.
pub open spec fn hash_list_set(s: Seq<Vec<u8>>) -> Set<Seq<u8>> {
    Set::new(|h: Seq<u8>| exists|i: int| 0 <= i < s.len() && #[trigger] s[i]@ == h)
}

/// Decides membership of `h` in the set a list holds.
pub fn list_contains(s: &Vec<Vec<u8>>, h: &Vec<u8>) -> (r: bool)
    ensures
        r == hash_list_set(s@).contains(h@),
{
    let mut i: usize = 0;
    while i < s.len()
        invariant
            i <= s@.len(),
            forall|j: int| 0 <= j < i ==> s@[j]@ != h@,
        decreases s@.len() - i,
    {
        if bytes_eq(&s[i], h) {
            assert(hash_list_set(s@).contains(h@));
            return true;
        }
        i = i + 1;
    }
    false
}

/// Decides whether every hash in `hs` lies in the set `s` holds.
pub fn all_contained(hs: &Vec<Vec<u8>>, s: &Vec<Vec<u8>>) -> (r: bool)
    ensures
        r == hash_list_set(hs@).subset_of(hash_list_set(s@)),
{
    let mut i: usize = 0;
    while i < hs.len()
        invariant
            i <= hs@.len(),
            forall|j: int| 0 <= j < i ==> hash_list_set(s@).contains(#[trigger] hs@[j]@),
        decreases hs@.len() - i,
    {
        if !list_contains(s, &hs[i]) {
            assert(hash_list_set(hs@).contains(hs@[i as int]@));
            return false;
        }
        i = i + 1;
    }
    assert forall|h: Seq<u8>| hash_list_set(hs@).contains(h)
        implies hash_list_set(s@).contains(h) by {
        let j = choose|j: int| 0 <= j < hs@.len() && hs@[j]@ == h;
        assert(hash_list_set(s@).contains(hs@[j]@));
    }
    true
}

/// Decides whether no hash in `hs` lies in the set `s` holds.
pub fn none_contained(hs: &Vec<Vec<u8>>, s: &Vec<Vec<u8>>) -> (r: bool)
    ensures
        r == hash_list_set(hs@).disjoint(hash_list_set(s@)),
{
    let mut i: usize = 0;
    while i < hs.len()
        invariant
            i <= hs@.len(),
            forall|j: int| 0 <= j < i ==> !hash_list_set(s@).contains(#[trigger] hs@[j]@),
        decreases hs@.len() - i,
    {
        if list_contains(s, &hs[i]) {
            assert(hash_list_set(hs@).contains(hs@[i as int]@));
            return false;
        }
        i = i + 1;
    }
    assert forall|h: Seq<u8>| hash_list_set(hs@).contains(h)
        implies !hash_list_set(s@).contains(h) by {
        let j = choose|j: int| 0 <= j < hs@.len() && hs@[j]@ == h;
        assert(!hash_list_set(s@).contains(hs@[j]@));
    }
    true
}

/// Appends every hash of `add` to `s`; the set grows by union.
pub fn push_all(s: &mut Vec<Vec<u8>>, add: &Vec<Vec<u8>>)
    ensures
        hash_list_set(final(s)@) == hash_list_set(old(s)@).union(hash_list_set(add@)),
{
    let ghost s0 = s@;
    let mut i: usize = 0;
    while i < add.len()
        invariant
            i <= add@.len(),
            s@.len() == s0.len() + i,
            forall|j: int| 0 <= j < s0.len() ==> s@[j] == s0[j],
            forall|j: int| 0 <= j < i ==> #[trigger] s@[s0.len() + j]@ == add@[j]@,
        decreases add@.len() - i,
    {
        let h = clone_hash(&add[i]);
        s.push(h);
        i = i + 1;
    }
    assert forall|h: Seq<u8>|
        hash_list_set(s@).contains(h)
            == hash_list_set(s0).union(hash_list_set(add@)).contains(h) by {
        if hash_list_set(s@).contains(h) {
            let j = choose|j: int| 0 <= j < s@.len() && s@[j]@ == h;
            if j < s0.len() {
                assert(s0[j]@ == h);
            } else {
                assert(s@[s0.len() + (j - s0.len())]@ == add@[j - s0.len()]@);
                assert(add@[j - s0.len()]@ == h);
            }
        }
        if hash_list_set(s0).contains(h) {
            let j = choose|j: int| 0 <= j < s0.len() && s0[j]@ == h;
            assert(s@[j]@ == h);
        }
        if hash_list_set(add@).contains(h) {
            let j = choose|j: int| 0 <= j < add@.len() && add@[j]@ == h;
            assert(s@[s0.len() + j]@ == h);
        }
    }
    assert(hash_list_set(s@) =~= hash_list_set(s0).union(hash_list_set(add@)));
}

/// Removes from `s` every hash that occurs in `remove`; the set shrinks by
/// difference.
pub fn remove_all(s: &mut Vec<Vec<u8>>, remove: &Vec<Vec<u8>>)
    ensures
        hash_list_set(final(s)@) == hash_list_set(old(s)@).difference(hash_list_set(remove@)),
{
    let mut kept: Vec<Vec<u8>> = Vec::new();
    let mut i: usize = 0;
    while i < s.len()
        invariant
            i <= s@.len(),
            forall|j: int| 0 <= j < kept@.len()
                ==> hash_list_set(old(s)@).contains(#[trigger] kept@[j]@)
                    && !hash_list_set(remove@).contains(kept@[j]@),
            forall|j: int| 0 <= j < i ==> hash_list_set(remove@).contains(#[trigger] s@[j]@)
                || hash_list_set(kept@).contains(s@[j]@),
            s@ == old(s)@,
        decreases s@.len() - i,
    {
        if !list_contains(remove, &s[i]) {
            let ghost kept0 = kept@;
            let h = clone_hash(&s[i]);
            kept.push(h);
            assert forall|j: int| 0 <= j < i + 1
                implies hash_list_set(remove@).contains(#[trigger] s@[j]@)
                    || hash_list_set(kept@).contains(s@[j]@) by {
                if j < i {
                    if hash_list_set(kept0).contains(s@[j]@) {
                        let k = choose|k: int| 0 <= k < kept0.len() && kept0[k]@ == s@[j]@;
                        assert(kept@[k]@ == s@[j]@);
                    }
                } else {
                    assert(kept@[kept@.len() - 1]@ == s@[j]@);
                }
            }
        } else {
            assert(hash_list_set(remove@).contains(s@[i as int]@));
        }
        i = i + 1;
    }
    assert forall|h: Seq<u8>|
        hash_list_set(kept@).contains(h)
            == hash_list_set(old(s)@).difference(hash_list_set(remove@)).contains(h) by {
        if hash_list_set(kept@).contains(h) {
            let j = choose|j: int| 0 <= j < kept@.len() && kept@[j]@ == h;
            assert(hash_list_set(old(s)@).contains(kept@[j]@));
            assert(!hash_list_set(remove@).contains(kept@[j]@));
        }
        if hash_list_set(old(s)@).contains(h) && !hash_list_set(remove@).contains(h) {
            let j = choose|j: int| 0 <= j < old(s)@.len() && old(s)@[j]@ == h;
            assert(hash_list_set(remove@).contains(s@[j]@) || hash_list_set(kept@).contains(s@[j]@));
        }
    }
    assert(hash_list_set(kept@) =~= hash_list_set(old(s)@).difference(hash_list_set(remove@)));
    *s = kept;
}

/// Copies a hash byte for byte.
pub fn clone_hash(h: &Vec<u8>) -> (r: Vec<u8>)
    ensures
        r@ == h@,
{
    let mut out: Vec<u8> = Vec::new();
    let mut i: usize = 0;
    while i < h.len()
        invariant
            i <= h@.len(),
            out@ == h@.take(i as int),
        decreases h@.len() - i,
    {
        out.push(h[i]);
        i = i + 1;
        assert(out@ =~= h@.take(i as int));
    }
    assert(h@.take(h@.len() as int) =~= h@);
    out
}

} // verus!
