//! Content hashing of blocks: big-endian serialization of the id and the
//! ascending-sorted parent ids, digested with SHA-256.

use vstd::prelude::*;
use vstd::relations::sorted_by;
use vstd::seq_lib::lemma_multiset_commutative;
use vstd::seq_lib::lemma_sorted_unique;
use sha2::{Digest, Sha256};

verus! {

/// The eight big-endian bytes of a 64-bit id.
pub open spec fn be64(x: u64) -> Seq<u8> {
    seq![
        ((x >> 56) & 0xff) as u8,
        ((x >> 48) & 0xff) as u8,
        ((x >> 40) & 0xff) as u8,
        ((x >> 32) & 0xff) as u8,
        ((x >> 24) & 0xff) as u8,
        ((x >> 16) & 0xff) as u8,
        ((x >> 8) & 0xff) as u8,
        (x & 0xff) as u8,
    ]
}

/// The concatenation of the big-endian serializations of a list of ids.
pub open spec fn be_concat(ids: Seq<u64>) -> Seq<u8>
    decreases ids.len(),
{
    if ids.len() == 0 {
        Seq::empty()
    } else {
        be_concat(ids.drop_last()) + be64(ids.last())
    }
}

/// The byte string whose digest is a block's hash: the id followed by the
/// (already sorted) parent ids, each as eight big-endian bytes.
pub open spec fn hash_input(id: u64, sorted_parents: Seq<u64>) -> Seq<u8> {
    be64(id) + be_concat(sorted_parents)
}

/// The ascending sort of a sequence of ids.
pub open spec fn sort_ids(s: Seq<u64>) -> Seq<u64> {
    s.sort_by(|a: u64, b: u64| a <= b)
}

/// What `sort_ids` returns: a permutation of the input, sorted ascending.
pub proof fn lemma_sort_ids_ensures(s: Seq<u64>)
    ensures
        sort_ids(s).to_multiset() == s.to_multiset(),
        sorted_by(sort_ids(s), |a: u64, b: u64| a <= b),
        sort_ids(s).len() == s.len(),
{
    broadcast use vstd::seq_lib::group_to_multiset_ensures;

    let leq = |a: u64, b: u64| a <= b;
    s.lemma_sort_by_ensures(leq);
    assert(s.to_multiset() =~= sort_ids(s).to_multiset());
    assert(s.to_multiset().len() == s.len());
    assert(sort_ids(s).to_multiset().len() == sort_ids(s).len());
}

/// A sorted sequence of ids, element by element.
pub open spec fn seq_sorted(s: Seq<u64>) -> bool {
    forall|i: int, j: int| 0 <= i <= j < s.len() ==> s[i] <= s[j]
}

/// Two sorted permutations of the same ids are the same sequence.
pub proof fn lemma_sorted_perm_is_sort_ids(s: Seq<u64>, r: Seq<u64>)
    requires
        seq_sorted(r),
        r.to_multiset() == s.to_multiset(),
    ensures
        r == sort_ids(s),
{
    let leq = |a: u64, b: u64| a <= b;
    assert(vstd::relations::reflexive(leq));
    assert(vstd::relations::antisymmetric(leq));
    assert(vstd::relations::transitive(leq));
    assert(vstd::relations::strongly_connected(leq));
    s.lemma_sort_by_ensures(leq);
    assert(sorted_by(r, leq));
    lemma_sorted_unique(r, sort_ids(s), leq);
    assert(r =~= sort_ids(s));
}

/// The digest input is independent of the order in which the parents were
/// given: two parent lists holding the same ids sort to the same sequence,
/// so they hash alike.
pub proof fn lemma_sort_ids_order_independent(a: Seq<u64>, b: Seq<u64>)
    requires
        a.to_multiset() == b.to_multiset(),
    ensures
        sort_ids(a) == sort_ids(b),
{
    let leq = |x: u64, y: u64| x <= y;
    assert(vstd::relations::reflexive(leq));
    assert(vstd::relations::antisymmetric(leq));
    assert(vstd::relations::transitive(leq));
    assert(vstd::relations::strongly_connected(leq));
    a.lemma_sort_by_ensures(leq);
    b.lemma_sort_by_ensures(leq);
    lemma_sorted_unique(sort_ids(a), sort_ids(b), leq);
    assert(sort_ids(a) =~= sort_ids(b));
}

/// Named digest of the external hash primitive; see `sha256`.
pub uninterp spec fn sha256_of(data: Seq<u8>) -> Seq<u8>;

/// Relies on sha2's `Sha256` (SHA-256 of FIPS 180-4): the 32-byte digest is a
/// function of the input bytes alone, reproducible across runs and machines.
#[verifier::external_body]
pub fn sha256(data: &Vec<u8>) -> (r: [u8; 32])
    ensures
        r@ == sha256_of(data@),
{
    let mut hasher = Sha256::new();
    hasher.update(data.as_slice());
    let out = hasher.finalize();
    let mut r = [0u8; 32];
    r.copy_from_slice(&out);
    r
}

/// Appends the eight big-endian bytes of `x` to `out`.
pub fn push_be64(out: &mut Vec<u8>, x: u64)
    ensures
        final(out)@ == old(out)@ + be64(x),
{
    proof {
        assert(((x >> 56) & 0xff) < 256 && ((x >> 48) & 0xff) < 256 && ((x >> 40) & 0xff) < 256
            && ((x >> 32) & 0xff) < 256 && ((x >> 24) & 0xff) < 256 && ((x >> 16) & 0xff) < 256
            && ((x >> 8) & 0xff) < 256 && (x & 0xff) < 256) by (bit_vector);
    }
    out.push(((x >> 56) & 0xff) as u8);
    out.push(((x >> 48) & 0xff) as u8);
    out.push(((x >> 40) & 0xff) as u8);
    out.push(((x >> 32) & 0xff) as u8);
    out.push(((x >> 24) & 0xff) as u8);
    out.push(((x >> 16) & 0xff) as u8);
    out.push(((x >> 8) & 0xff) as u8);
    out.push((x & 0xff) as u8);
    proof {
        assert(out@ =~= old(out)@ + be64(x));
    }
}

/// Builds the byte string to digest for a block: id, then each sorted parent.
pub fn build_hash_input(id: u64, sorted_parents: &Vec<u64>) -> (r: Vec<u8>)
    ensures
        r@ == hash_input(id, sorted_parents@),
{
    let mut out: Vec<u8> = Vec::new();
    push_be64(&mut out, id);
    let mut i: usize = 0;
    while i < sorted_parents.len()
        invariant
            i <= sorted_parents@.len(),
            out@ == be64(id) + be_concat(sorted_parents@.take(i as int)),
        decreases sorted_parents@.len() - i,
    {
        push_be64(&mut out, sorted_parents[i]);
        proof {
            let s = sorted_parents@;
            assert(s.take(i + 1).drop_last() =~= s.take(i as int));
            assert(s.take(i + 1).last() == s[i as int]);
            assert(be_concat(s.take(i + 1)) == be_concat(s.take(i as int)) + be64(s[i as int]));
            assert(out@ =~= be64(id) + be_concat(s.take(i + 1)));
        }
        i += 1;
    }
    proof {
        assert(sorted_parents@.take(sorted_parents@.len() as int) =~= sorted_parents@);
    }
    out
}

/// Sorts a list of ids ascending; insertion sort, adequate for parent lists.
pub fn sort_u64(v: &Vec<u64>) -> (r: Vec<u64>)
    ensures
        r@ == sort_ids(v@),
        r@.len() == v@.len(),
{
    broadcast use vstd::seq_lib::group_to_multiset_ensures;

    let mut r: Vec<u64> = Vec::new();
    let mut i: usize = 0;
    while i < v.len()
        invariant
            i <= v@.len(),
            r@.len() == i,
            seq_sorted(r@),
            r@.to_multiset() == v@.take(i as int).to_multiset(),
        decreases v@.len() - i,
    {
        let x = v[i];
        let ghost r_old = r@;
        let mut j: usize = 0;
        while j < r.len() && r[j] <= x
            invariant
                j <= r@.len(),
                r@ == r_old,
                forall|t: int| 0 <= t < j ==> r@[t] <= x,
            decreases r@.len() - j,
        {
            j += 1;
        }
        r.insert(j, x);
        proof {
            r_old.insert_ensures(j as int, x);
            assert(seq_sorted(r@)) by {
                assert forall|p: int, q: int| 0 <= p <= q < r@.len() implies r@[p] <= r@[q] by {
                    if q < j {
                    } else if p > j {
                        assert(r@[p] == r_old[p - 1] && r@[q] == r_old[q - 1]);
                    } else if p == j && q == j {
                    } else if p == j {
                        // r[p] == x, q > j: r_old[q-1] comes at or after position j, so x < it
                        assert(r@[q] == r_old[q - 1] && j <= q - 1 < r_old.len());
                        assert(!(r_old[j as int] <= x));
                        assert(r_old[j as int] <= r_old[q - 1]);
                    } else if q == j {
                        assert(r@[p] == r_old[p] && p < j);
                    } else {
                        // p < j < q
                        assert(r@[p] == r_old[p] && r@[q] == r_old[q - 1]);
                        if p <= j - 1 && j <= q - 1 {
                            assert(r_old[p] <= r_old[q - 1]);
                        }
                    }
                }
            }
            assert(r@.to_multiset() == v@.take(i + 1).to_multiset()) by {
                broadcast use vstd::multiset::group_multiset_axioms;

                assert(r@ =~= r_old.take(j as int).push(x) + r_old.skip(j as int));
                lemma_multiset_commutative(r_old.take(j as int).push(x), r_old.skip(j as int));
                vstd::seq_lib::to_multiset_build(r_old.take(j as int), x);
                assert(r_old.take(j as int).push(x).to_multiset()
                    =~= r_old.take(j as int).to_multiset().insert(x));
                lemma_multiset_commutative(r_old.take(j as int), r_old.skip(j as int));
                assert(r_old.take(j as int) + r_old.skip(j as int) =~= r_old);
                assert(r@.to_multiset() =~= r_old.to_multiset().insert(x));
                assert(v@.take(i + 1) =~= v@.take(i as int).push(x));
                vstd::seq_lib::to_multiset_build(v@.take(i as int), x);
                assert(v@.take(i as int).push(x).to_multiset() =~= v@.take(i as int).to_multiset().insert(x));
                assert(v@.take(i + 1).to_multiset() =~= v@.take(i as int).to_multiset().insert(x));
            }
        }
        i += 1;
    }
    proof {
        assert(v@.take(v@.len() as int) =~= v@);
        lemma_sorted_perm_is_sort_ids(v@, r@);
    }
    r
}

} // verus!
