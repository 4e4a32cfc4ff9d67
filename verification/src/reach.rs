//! Reachability in the block graph.
//!
//! `in_past(blocks, anc, x)` says that `anc` is reachable from `x` by
//! following parent edges (reflexively): `anc` lies in the past of `x`,
//! equivalently `x` lies in the future of `anc`.  Parent ids are always
//! smaller than the child's id in a well-formed store, so the recursion
//! is over the id itself; the `< x` guards only bound the recursion.

use vstd::prelude::*;
use crate::block::Block;

verus! {

/// Does one of the first `k` parents of `x` lead back to `anc`?
pub open spec fn reaches_via(blocks: Seq<Block>, anc: int, x: int, k: int) -> bool
    decreases x, k,
{
    if !(0 <= x < blocks.len()) || k <= 0 || k > blocks[x].parents@.len() {
        false
    } else {
        let p = blocks[x].parents@[k - 1] as int;
        (p < x && in_past(blocks, anc, p)) || reaches_via(blocks, anc, x, k - 1)
    }
}

/// `anc` is in the past of `x` (including `x` itself).
pub open spec fn in_past(blocks: Seq<Block>, anc: int, x: int) -> bool
    decreases x, blocks[x].parents@.len() + 1,
{
    x == anc || (0 <= x < blocks.len() && reaches_via(
        blocks,
        anc,
        x,
        blocks[x].parents@.len() as int,
    ))
}

/// From `reaches_via`, the index of a parent that leads back to `anc`.
pub proof fn lemma_reaches_via_elim(blocks: Seq<Block>, anc: int, x: int, k: int) -> (j: int)
    requires
        reaches_via(blocks, anc, x, k),
    ensures
        0 <= j < k,
        j < blocks[x].parents@.len(),
        (blocks[x].parents@[j] as int) < x,
        in_past(blocks, anc, blocks[x].parents@[j] as int),
    decreases k,
{
    let p = blocks[x].parents@[k - 1] as int;
    if p < x && in_past(blocks, anc, p) {
        k - 1
    } else {
        lemma_reaches_via_elim(blocks, anc, x, k - 1)
    }
}

/// A parent that leads back to `anc` witnesses `reaches_via`.
pub proof fn lemma_reaches_via_intro(blocks: Seq<Block>, anc: int, x: int, j: int, k: int)
    requires
        0 <= x < blocks.len(),
        0 <= j < k,
        k <= blocks[x].parents@.len(),
        (blocks[x].parents@[j] as int) < x,
        in_past(blocks, anc, blocks[x].parents@[j] as int),
    ensures
        reaches_via(blocks, anc, x, k),
    decreases k,
{
    if j < k - 1 {
        lemma_reaches_via_intro(blocks, anc, x, j, k - 1);
    }
}

/// A parent is in the past of its child.
pub proof fn lemma_parent_in_past(blocks: Seq<Block>, x: int, j: int)
    requires
        0 <= x < blocks.len(),
        0 <= j < blocks[x].parents@.len(),
        (blocks[x].parents@[j] as int) < x,
    ensures
        in_past(blocks, blocks[x].parents@[j] as int, x),
{
    let p = blocks[x].parents@[j] as int;
    assert(in_past(blocks, p, p));
    lemma_reaches_via_intro(blocks, p, x, j, blocks[x].parents@.len() as int);
}

/// An ancestor's id is never larger than the descendant's.
pub proof fn lemma_in_past_le(blocks: Seq<Block>, anc: int, x: int)
    requires
        in_past(blocks, anc, x),
    ensures
        anc <= x,
    decreases x,
{
    if x != anc {
        let j = lemma_reaches_via_elim(blocks, anc, x, blocks[x].parents@.len() as int);
        lemma_in_past_le(blocks, anc, blocks[x].parents@[j] as int);
    }
}

/// The past relation is transitive.
pub proof fn lemma_in_past_trans(blocks: Seq<Block>, a: int, b: int, c: int)
    requires
        in_past(blocks, a, b),
        in_past(blocks, b, c),
    ensures
        in_past(blocks, a, c),
    decreases c,
{
    if c != b {
        let j = lemma_reaches_via_elim(blocks, b, c, blocks[c].parents@.len() as int);
        let p = blocks[c].parents@[j] as int;
        lemma_in_past_le(blocks, b, p);
        lemma_in_past_trans(blocks, a, b, p);
        lemma_reaches_via_intro(blocks, a, c, j, blocks[c].parents@.len() as int);
    }
}

/// In a marking that contains `t` and is closed under stepping from a marked
/// block to its parents, every ancestor of `t` is marked.
pub proof fn lemma_closed_marks_complete(blocks: Seq<Block>, m: Seq<bool>, t: int, x: int)
    requires
        m.len() == blocks.len(),
        0 <= t < blocks.len(),
        m[t],
        forall|c: int, j: int|
            0 <= c < blocks.len() && m[c] && 0 <= j < blocks[c].parents@.len()
                && (blocks[c].parents@[j] as int) < c
                ==> m[#[trigger] blocks[c].parents@[j] as int],
        in_past(blocks, x, t),
    ensures
        m[x],
    decreases t,
{
    if x != t {
        let j = lemma_reaches_via_elim(blocks, x, t, blocks[t].parents@.len() as int);
        let p = blocks[t].parents@[j] as int;
        assert(m[p]);
        lemma_in_past_le(blocks, x, p);
        lemma_closed_marks_complete(blocks, m, p, x);
    }
}

/// How many ids below `n` have `a` in their past but not `b`: the size of the
/// directional future-set difference, restricted to the store.
pub open spec fn anticone_count(blocks: Seq<Block>, a: int, b: int, n: int) -> nat
    decreases n,
{
    if n <= 0 {
        0
    } else {
        anticone_count(blocks, a, b, n - 1)
            + (if in_past(blocks, a, n - 1) && !in_past(blocks, b, n - 1) { 1nat } else { 0nat })
    }
}

/// The directional anticone approximation: the number of blocks reachable
/// forward from `a` but not from `b`, counting `a` itself when it is not yet
/// in the store, minus one (never below zero).
pub open spec fn anticone_size_spec(blocks: Seq<Block>, a: int, b: int) -> nat {
    let inside = anticone_count(blocks, a, b, blocks.len() as int);
    let outside: nat = if a >= blocks.len() && a != b { 1nat } else { 0nat };
    if inside + outside >= 1 {
        (inside + outside - 1) as nat
    } else {
        0nat
    }
}

/// An id outside the store is in nobody's past there.
pub proof fn lemma_anticone_count_empty(blocks: Seq<Block>, a: int, b: int, n: int)
    requires
        a >= blocks.len(),
        n <= blocks.len(),
    ensures
        anticone_count(blocks, a, b, n) == 0,
    decreases n,
{
    if n > 0 {
        lemma_anticone_count_empty(blocks, a, b, n - 1);
        if in_past(blocks, a, n - 1) {
            lemma_in_past_le(blocks, a, n - 1);
        }
    }
}

/// The critical timing contract: an id that is not yet in the store has a
/// future set of just itself, so its anticone against any stored block is
/// zero — which is why classification before linking always comes out Blue.
pub proof fn lemma_unlinked_anticone_zero(blocks: Seq<Block>, a: int, b: int)
    requires
        a >= blocks.len(),
        0 <= b < blocks.len(),
    ensures
        anticone_size_spec(blocks, a, b) == 0,
{
    lemma_anticone_count_empty(blocks, a, b, blocks.len() as int);
}

/// How many ids below `n` are in the past of `t`.
pub open spec fn past_count(blocks: Seq<Block>, t: int, n: int) -> nat
    decreases n,
{
    if n <= 0 {
        0
    } else {
        past_count(blocks, t, n - 1) + (if in_past(blocks, n - 1, t) { 1nat } else { 0nat })
    }
}

/// The size of the past set of `t` within the store.
pub open spec fn past_size(blocks: Seq<Block>, t: int) -> nat {
    past_count(blocks, t, blocks.len() as int)
}

} // verus!
