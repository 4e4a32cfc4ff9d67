//! The DAG state: block store, tip set, selected parent, and the operations
//! that insert, classify and consolidate blocks.

use vstd::prelude::*;
use crate::block::{Block, Color, DagError};
use crate::hashing::{hash_input, sha256, sha256_of, sort_ids, sort_u64, build_hash_input};
use crate::reach::{
    anticone_count, anticone_size_spec, in_past, lemma_closed_marks_complete,
    lemma_in_past_trans, lemma_parent_in_past, lemma_reaches_via_intro, past_count, past_size,
    reaches_via,
};

verus! {

/// A single node's DAG: the store of blocks, the current tips, the next id
/// to issue, the selected parent, and the two configuration parameters.
pub struct ToyDag {
    /// Block with id `i` sits at index `i`; ids are issued monotonically.
    pub blocks: Vec<Block>,
    /// The current tip ids; membership is the only observable property.
    pub tips: Vec<u64>,
    /// The id the next created block will receive.
    pub next_id: u64,
    /// The chain-defining ancestor: always a Blue block.
    pub selected_parent: u64,
    /// Anticone tolerance for the Blue/Red classification.
    pub k: usize,
    /// Tip-set size above which consolidation merges all tips.
    pub stitch_threshold: usize,
}

/// The tip update for a whole parent list: every parent leaves the tip set
/// (a parent that is not currently a tip is left alone).
pub open spec fn remove_tips(tips: Set<u64>, parents: Seq<u64>) -> Set<u64>
    decreases parents.len(),
{
    if parents.len() == 0 {
        tips
    } else {
        remove_tips(tips.remove(parents[0]), parents.drop_first())
    }
}

/// Appending one more parent removes one more tip at the end.
pub proof fn lemma_remove_tips_push(tips: Set<u64>, parents: Seq<u64>, p: u64)
    ensures
        remove_tips(tips, parents.push(p)) == remove_tips(tips, parents).remove(p),
    decreases parents.len(),
{
    if parents.len() == 0 {
        assert(parents.push(p)[0] == p);
        assert(parents.push(p).drop_first() =~= Seq::<u64>::empty());
        assert(remove_tips(tips, parents.push(p))
            == remove_tips(tips.remove(p), parents.push(p).drop_first()));
        assert(remove_tips(tips.remove(p), parents.push(p).drop_first()) == tips.remove(p));
        assert(remove_tips(tips, parents) == tips);
    } else {
        assert(parents.push(p)[0] == parents[0]);
        assert(parents.push(p).drop_first() =~= parents.drop_first().push(p));
        lemma_remove_tips_push(tips.remove(parents[0]), parents.drop_first(), p);
    }
}

impl ToyDag {
    /// The whole-state invariant: ids equal indices, parents point backwards,
    /// genesis is the fixed Blue zero-hash block, every later block's hash is
    /// the digest of its id and sorted parents, the tips are a non-empty
    /// duplicate-free set of issued ids, and the selected parent is Blue.
    pub open spec fn wf(self) -> bool {
        &&& self.blocks@.len() == self.next_id as int
        &&& self.next_id >= 1
        &&& forall|i: int|
            0 <= i < self.blocks@.len() ==> (#[trigger] self.blocks@[i]).id as int == i
        &&& self.blocks@[0].parents@.len() == 0
        &&& self.blocks@[0].color == Color::Blue
        &&& forall|b: int| 0 <= b < 32 ==> (#[trigger] self.blocks@[0].hash@[b]) == 0u8
        &&& forall|i: int|
            1 <= i < self.blocks@.len() ==> (#[trigger] self.blocks@[i]).parents@.len() >= 1
        &&& forall|i: int, j: int|
            0 <= i < self.blocks@.len() && 0 <= j < self.blocks@[i].parents@.len()
                ==> (#[trigger] self.blocks@[i].parents@[j]) < i
        &&& forall|i: int|
            1 <= i < self.blocks@.len() ==> (#[trigger] self.blocks@[i]).hash@ == sha256_of(
                hash_input(self.blocks@[i].id, sort_ids(self.blocks@[i].parents@)),
            )
        &&& self.tips@.no_duplicates()
        &&& self.tips@.len() >= 1
        &&& forall|t: int| 0 <= t < self.tips@.len() ==> (#[trigger] self.tips@[t]) < self.next_id
        &&& self.selected_parent < self.next_id
        &&& self.blocks@[self.selected_parent as int].color == Color::Blue
    }

    /// The tip set as a mathematical set of ids.
    pub open spec fn tip_set(self) -> Set<u64> {
        self.tips@.to_set()
    }

    /// A fresh DAG with the default tolerance and stitch threshold,
    /// holding only the genesis block.
    pub fn new() -> (d: ToyDag)
        ensures
            d.wf(),
            d.k == 15,
            d.stitch_threshold == 10,
            d.blocks@.len() == 1,
            d.next_id == 1,
            d.selected_parent == 0,
            d.tips@ == seq![0u64],
            d.blocks@[0].id == 0,
            d.blocks@[0].parents@.len() == 0,
            d.blocks@[0].color == Color::Blue,
            forall|b: int| 0 <= b < 32 ==> (#[trigger] d.blocks@[0].hash@[b]) == 0u8,
    {
        ToyDag::with_config(15, 10)
    }

    /// A fresh DAG with the given anticone tolerance and stitch threshold.
    pub fn with_config(k: usize, stitch_threshold: usize) -> (d: ToyDag)
        ensures
            d.wf(),
            d.k == k,
            d.stitch_threshold == stitch_threshold,
            d.blocks@.len() == 1,
            d.next_id == 1,
            d.selected_parent == 0,
            d.tips@ == seq![0u64],
            d.blocks@[0].id == 0,
            d.blocks@[0].parents@.len() == 0,
            d.blocks@[0].color == Color::Blue,
            forall|b: int| 0 <= b < 32 ==> (#[trigger] d.blocks@[0].hash@[b]) == 0u8,
    {
        let genesis = Block { id: 0, parents: Vec::new(), color: Color::Blue, hash: [0u8; 32] };
        let mut blocks: Vec<Block> = Vec::new();
        blocks.push(genesis);
        let mut tips: Vec<u64> = Vec::new();
        tips.push(0);
        proof {
            assert(tips@ =~= seq![0u64]);
        }
        ToyDag { blocks, tips, next_id: 1, selected_parent: 0, k, stitch_threshold }
    }

    /// Explicit lookup: the block with this id, or `NotFound` for an id that
    /// was never issued.
    pub fn get(&self, id: u64) -> (r: Result<&Block, DagError>)
        ensures
            match r {
                Ok(b) => (id as int) < self.blocks@.len() && *b == self.blocks@[id as int],
                Err(e) => (id as int) >= self.blocks@.len() && e == DagError::NotFound,
            },
    {
        if id < self.blocks.len() as u64 {
            Ok(&self.blocks[id as usize])
        } else {
            Err(DagError::NotFound)
        }
    }

    /// One mark per stored block: is it forward-reachable from `id`?
    /// A single ascending pass suffices because parents precede children.
    fn future_marks(&self, id: u64) -> (m: Vec<bool>)
        requires
            self.wf(),
        ensures
            m@.len() == self.blocks@.len(),
            forall|x: int|
                0 <= x < m@.len() ==> (#[trigger] m@[x]) == in_past(self.blocks@, id as int, x),
    {
        let n = self.blocks.len();
        let mut m: Vec<bool> = Vec::new();
        let mut j: usize = 0;
        while j < n
            invariant
                self.wf(),
                n == self.blocks@.len(),
                j <= n,
                m@.len() == j,
                forall|x: int|
                    0 <= x < j ==> (#[trigger] m@[x]) == in_past(self.blocks@, id as int, x),
            decreases n - j,
        {
            let mut found: bool = j as u64 == id;
            let np = self.blocks[j].parents.len();
            let mut t: usize = 0;
            while t < np
                invariant
                    self.wf(),
                    n == self.blocks@.len(),
                    j < n,
                    m@.len() == j,
                    forall|x: int|
                        0 <= x < j ==> (#[trigger] m@[x]) == in_past(self.blocks@, id as int, x),
                    np == self.blocks@[j as int].parents@.len(),
                    t <= np,
                    found == (j as int == id as int || reaches_via(
                        self.blocks@,
                        id as int,
                        j as int,
                        t as int,
                    )),
                decreases np - t,
            {
                let p = self.blocks[j].parents[t];
                assert(p < j as u64);
                if m[p as usize] {
                    found = true;
                }
                proof {
                    assert(m@[p as int] == in_past(self.blocks@, id as int, p as int));
                }
                t += 1;
            }
            m.push(found);
            proof {
                assert(in_past(self.blocks@, id as int, j as int) == (j as int == id as int
                    || reaches_via(self.blocks@, id as int, j as int, np as int)));
            }
            j += 1;
        }
        m
    }

    /// The ids forward-reachable from `block_id`, including `block_id` itself
    /// even when it has not been inserted yet.
    pub fn future_set(&self, block_id: u64) -> (r: Vec<u64>)
        requires
            self.wf(),
        ensures
            forall|x: u64|
                r@.contains(x) <==> (x == block_id || ((x as int) < self.blocks@.len()
                    && in_past(self.blocks@, block_id as int, x as int))),
            r@.no_duplicates(),
    {
        let m = self.future_marks(block_id);
        let n = self.blocks.len();
        let mut r: Vec<u64> = Vec::new();
        let mut j: usize = 0;
        while j < n
            invariant
                self.wf(),
                n == self.blocks@.len(),
                m@.len() == n,
                forall|x: int|
                    0 <= x < n ==> (#[trigger] m@[x]) == in_past(self.blocks@, block_id as int, x),
                j <= n,
                forall|x: u64|
                    r@.contains(x) <==> ((x as int) < j && in_past(
                        self.blocks@,
                        block_id as int,
                        x as int,
                    )),
                forall|t: int| 0 <= t < r@.len() ==> (#[trigger] r@[t]) < j as u64,
                r@.no_duplicates(),
            decreases n - j,
        {
            if m[j] {
                let ghost r_old = r@;
                r.push(j as u64);
                proof {
                    assert forall|x: u64|
                        r@.contains(x) implies ((x as int) < j + 1 && in_past(
                            self.blocks@,
                            block_id as int,
                            x as int,
                        )) by {
                        if x != j as u64 {
                            assert(r_old.contains(x));
                        }
                    }
                    assert forall|x: u64|
                        ((x as int) < j + 1 && in_past(self.blocks@, block_id as int, x as int))
                            implies r@.contains(x) by {
                        if (x as int) < j {
                            assert(r_old.contains(x));
                            let t = choose|t: int| 0 <= t < r_old.len() && r_old[t] == x;
                            assert(r@[t] == x);
                        } else {
                            assert(r@[r@.len() - 1] == x);
                        }
                    }
                }
            } else {
                proof {
                    assert forall|x: u64|
                        ((x as int) < j + 1 && in_past(self.blocks@, block_id as int, x as int))
                            implies r@.contains(x) by {
                        if (x as int) == j as int {
                            assert(m@[j as int] == in_past(self.blocks@, block_id as int, j as int));
                            assert(false);
                        }
                    }
                }
            }
            j += 1;
        }
        if block_id >= n as u64 {
            let ghost r_old = r@;
            r.push(block_id);
            proof {
                assert forall|x: u64| r@.contains(x) implies (x == block_id || ((x as int)
                    < self.blocks@.len() && in_past(self.blocks@, block_id as int, x as int))) by {
                    if x != block_id {
                        assert(r_old.contains(x));
                    }
                }
                assert forall|x: u64| (x == block_id || ((x as int) < self.blocks@.len()
                    && in_past(self.blocks@, block_id as int, x as int))) implies r@.contains(
                    x,
                ) by {
                    if x == block_id {
                        assert(r@[r@.len() - 1] == x);
                    } else {
                        assert(r_old.contains(x));
                        let t = choose|t: int| 0 <= t < r_old.len() && r_old[t] == x;
                        assert(r@[t] == x);
                    }
                }
                assert(!r_old.contains(block_id));
            }
        } else {
            proof {
                assert(in_past(self.blocks@, block_id as int, block_id as int));
            }
        }
        r
    }

    /// The directional anticone approximation between two ids: the number of
    /// ids forward-reachable from `block_id` but not from `reference_id`,
    /// minus one, never below zero.
    pub fn anticone_size(&self, block_id: u64, reference_id: u64) -> (r: usize)
        requires
            self.wf(),
        ensures
            r == anticone_size_spec(self.blocks@, block_id as int, reference_id as int),
    {
        let ma = self.future_marks(block_id);
        let mb = self.future_marks(reference_id);
        let n = self.blocks.len();
        let mut count: usize = 0;
        let mut j: usize = 0;
        while j < n
            invariant
                n == self.blocks@.len(),
                ma@.len() == n,
                mb@.len() == n,
                forall|x: int|
                    0 <= x < n ==> (#[trigger] ma@[x]) == in_past(self.blocks@, block_id as int, x),
                forall|x: int|
                    0 <= x < n ==> (#[trigger] mb@[x]) == in_past(
                        self.blocks@,
                        reference_id as int,
                        x,
                    ),
                j <= n,
                count == anticone_count(self.blocks@, block_id as int, reference_id as int, j as int),
                count <= j,
            decreases n - j,
        {
            if ma[j] && !mb[j] {
                count += 1;
            }
            j += 1;
        }
        let extra: bool = block_id >= n as u64 && block_id != reference_id;
        if extra {
            count
        } else if count >= 1 {
            count - 1
        } else {
            0
        }
    }

    /// One mark per stored block: is it in the past of `t`?  A descending
    /// pass marks the parents of every marked block.
    fn past_marks(&self, t: u64) -> (m: Vec<bool>)
        requires
            self.wf(),
            (t as int) < self.blocks@.len(),
        ensures
            m@.len() == self.blocks@.len(),
            forall|x: int|
                0 <= x < m@.len() ==> (#[trigger] m@[x]) == in_past(self.blocks@, x, t as int),
    {
        let n = self.blocks.len();
        let mut m: Vec<bool> = Vec::new();
        let mut j: usize = 0;
        // all false, then mark t itself
        while j < n
            invariant
                j <= n,
                m@.len() == j,
                forall|x: int| 0 <= x < j ==> !(#[trigger] m@[x]),
            decreases n - j,
        {
            m.push(false);
            j += 1;
        }
        let tu = t as usize;
        m.set(tu, true);
        let ghost blocks = self.blocks@;
        let mut i: usize = tu + 1;
        while i > 0
            invariant
                self.wf(),
                blocks == self.blocks@,
                n == blocks.len(),
                m@.len() == n,
                i <= tu + 1,
                tu == t as int,
                tu < n,
                m@[t as int],
                // soundness: every mark is an ancestor of t
                forall|c: int| 0 <= c < n && #[trigger] m@[c] ==> in_past(blocks, c, t as int),
                // nothing at or above the processed region is marked late:
                // processed blocks already passed their marks to their parents
                forall|c: int, q: int|
                    i <= c < n && m@[c] && 0 <= q < blocks[c].parents@.len()
                        ==> m@[#[trigger] blocks[c].parents@[q] as int],
            decreases i,
        {
            i -= 1;
            if m[i] {
                let np = self.blocks[i].parents.len();
                let mut q: usize = 0;
                while q < np
                    invariant
                        self.wf(),
                        blocks == self.blocks@,
                        n == blocks.len(),
                        m@.len() == n,
                        i < n,
                        m@[i as int],
                        m@[t as int],
                        tu == t as int,
                        np == blocks[i as int].parents@.len(),
                        q <= np,
                        forall|c: int| 0 <= c < n && #[trigger] m@[c] ==> in_past(blocks, c, t as int),
                        forall|c: int, w: int|
                            i + 1 <= c < n && m@[c] && 0 <= w < blocks[c].parents@.len()
                                ==> m@[#[trigger] blocks[c].parents@[w] as int],
                        forall|w: int|
                            0 <= w < q ==> m@[#[trigger] blocks[i as int].parents@[w] as int],
                    decreases np - q,
                {
                    let p = self.blocks[i].parents[q];
                    assert(p < i as u64);
                    proof {
                        lemma_parent_in_past(blocks, i as int, q as int);
                        lemma_in_past_trans(blocks, p as int, i as int, t as int);
                    }
                    m.set(p as usize, true);
                    q += 1;
                }
            }
            proof {
                assert forall|c: int, q: int|
                    i <= c < n && m@[c] && 0 <= q < blocks[c].parents@.len()
                        implies m@[#[trigger] blocks[c].parents@[q] as int] by {
                    if c == i as int {
                        assert(m@[blocks[i as int].parents@[q] as int]);
                    }
                }
            }
        }
        proof {
            assert forall|x: int| 0 <= x < n implies (#[trigger] m@[x]) == in_past(
                blocks,
                x,
                t as int,
            ) by {
                if in_past(blocks, x, t as int) {
                    lemma_closed_marks_complete(blocks, m@, t as int, x);
                }
            }
        }
        m
    }

    /// The ids in the past of a stored `block_id`, including itself.
    fn past_set_stored(&self, block_id: u64) -> (r: Vec<u64>)
        requires
            self.wf(),
            (block_id as int) < self.blocks@.len(),
        ensures
            forall|x: u64|
                r@.contains(x) <==> ((x as int) < self.blocks@.len() && in_past(
                    self.blocks@,
                    x as int,
                    block_id as int,
                )),
            r@.no_duplicates(),
            r@.len() == past_size(self.blocks@, block_id as int),
    {
        let m = self.past_marks(block_id);
        let n = self.blocks.len();
        let mut r: Vec<u64> = Vec::new();
        let mut j: usize = 0;
        while j < n
            invariant
                n == self.blocks@.len(),
                m@.len() == n,
                forall|x: int|
                    0 <= x < n ==> (#[trigger] m@[x]) == in_past(self.blocks@, x, block_id as int),
                j <= n,
                forall|x: u64|
                    r@.contains(x) <==> ((x as int) < j && in_past(
                        self.blocks@,
                        x as int,
                        block_id as int,
                    )),
                forall|t: int| 0 <= t < r@.len() ==> (#[trigger] r@[t]) < j as u64,
                r@.no_duplicates(),
                r@.len() == past_count(self.blocks@, block_id as int, j as int),
            decreases n - j,
        {
            if m[j] {
                let ghost r_old = r@;
                r.push(j as u64);
                proof {
                    assert forall|x: u64|
                        r@.contains(x) implies ((x as int) < j + 1 && in_past(
                            self.blocks@,
                            x as int,
                            block_id as int,
                        )) by {
                        if x != j as u64 {
                            assert(r_old.contains(x));
                        }
                    }
                    assert forall|x: u64|
                        ((x as int) < j + 1 && in_past(self.blocks@, x as int, block_id as int))
                            implies r@.contains(x) by {
                        if (x as int) < j {
                            assert(r_old.contains(x));
                            let t = choose|t: int| 0 <= t < r_old.len() && r_old[t] == x;
                            assert(r@[t] == x);
                        } else {
                            assert(r@[r@.len() - 1] == x);
                        }
                    }
                }
            } else {
                proof {
                    assert forall|x: u64|
                        ((x as int) < j + 1 && in_past(self.blocks@, x as int, block_id as int))
                            implies r@.contains(x) by {
                        if (x as int) == j as int {
                            assert(m@[j as int] == in_past(self.blocks@, j as int, block_id as int));
                            assert(false);
                        }
                    }
                }
            }
            j += 1;
        }
        r
    }

    /// The ids in the past of `block_id`, including `block_id` itself, or
    /// `NotFound` for an id that was never issued.
    pub fn past_set(&self, block_id: u64) -> (r: Result<Vec<u64>, DagError>)
        requires
            self.wf(),
        ensures
            match r {
                Ok(v) => {
                    &&& (block_id as int) < self.blocks@.len()
                    &&& forall|x: u64|
                        v@.contains(x) <==> ((x as int) < self.blocks@.len() && in_past(
                            self.blocks@,
                            x as int,
                            block_id as int,
                        ))
                    &&& v@.no_duplicates()
                    &&& v@.len() == past_size(self.blocks@, block_id as int)
                },
                Err(e) => (block_id as int) >= self.blocks@.len() && e == DagError::NotFound,
            },
    {
        if block_id < self.blocks.len() as u64 {
            Ok(self.past_set_stored(block_id))
        } else {
            Err(DagError::NotFound)
        }
    }

    /// The size of the past set of `block_id`, or `NotFound` for an id that
    /// was never issued.
    pub fn past_len(&self, block_id: u64) -> (r: Result<usize, DagError>)
        requires
            self.wf(),
        ensures
            match r {
                Ok(n) => (block_id as int) < self.blocks@.len() && n == past_size(
                    self.blocks@,
                    block_id as int,
                ),
                Err(e) => (block_id as int) >= self.blocks@.len() && e == DagError::NotFound,
            },
    {
        if block_id < self.blocks.len() as u64 {
            Ok(self.past_set_stored(block_id).len())
        } else {
            Err(DagError::NotFound)
        }
    }

    /// Recomputes the selected parent: among the Blue tips, the one with the
    /// largest past set, ties broken towards the smallest id; left unchanged
    /// when no tip is Blue.
    pub fn update_selected_parent(&mut self)
        requires
            old(self).wf(),
        ensures
            final(self).wf(),
            final(self).blocks@ == old(self).blocks@,
            final(self).tips@ == old(self).tips@,
            final(self).next_id == old(self).next_id,
            final(self).k == old(self).k,
            final(self).stitch_threshold == old(self).stitch_threshold,
            selection_ok(
                old(self).blocks@,
                old(self).tips@,
                old(self).selected_parent,
                final(self).selected_parent,
            ),
    {
        let ghost blocks = self.blocks@;
        let ghost tips = self.tips@;
        let mut have: bool = false;
        let mut best: u64 = 0;
        let mut best_size: usize = 0;
        let mut i: usize = 0;
        while i < self.tips.len()
            invariant
                *self == *old(self),
                self.wf(),
                blocks == self.blocks@,
                tips == self.tips@,
                i <= tips.len(),
                have == exists|w: int| 0 <= w < i && #[trigger] tip_is_blue(blocks, tips, w),
                have ==> exists|w: int|
                    0 <= w < i && #[trigger] tip_is_blue(blocks, tips, w) && tips[w] == best,
                have ==> (best as int) < blocks.len() && best_size == past_size(
                    blocks,
                    best as int,
                ),
                have ==> forall|w: int|
                    0 <= w < i && #[trigger] tip_is_blue(blocks, tips, w) ==> past_size(
                        blocks,
                        tips[w] as int,
                    ) < past_size(blocks, best as int) || (past_size(blocks, tips[w] as int)
                        == past_size(blocks, best as int) && best <= tips[w]),
            decreases tips.len() - i,
        {
            let t = self.tips[i];
            assert(t < self.next_id);
            let n = self.blocks.len();
            assert((t as int) < n as int);
            let c = self.blocks[t as usize].color;
            if c == Color::Blue {
                assert(tip_is_blue(blocks, tips, i as int));
                let ps = self.past_set_stored(t).len();
                if !have || ps > best_size || (ps == best_size && t < best) {
                    have = true;
                    best = t;
                    best_size = ps;
                }
            }
            i += 1;
        }
        if have {
            self.selected_parent = best;
            proof {
                let w = choose|w: int|
                    0 <= w < tips.len() && #[trigger] tip_is_blue(blocks, tips, w) && tips[w]
                        == best;
                assert(self.blocks@[self.selected_parent as int].color == Color::Blue);
            }
        } else {
            proof {
                assert(!(exists|w: int|
                    0 <= w < tips.len() && #[trigger] tip_is_blue(blocks, tips, w)));
            }
        }
    }

    /// Creates a new block with the given (non-empty, already issued) parent
    /// ids: allocates the next id, classifies against the current selected
    /// parent before linking, hashes the id with the sorted parents, stores
    /// the record, removes every parent from the tip set and adds the new
    /// block to it, and recomputes the selected parent.
    pub fn create_block(&mut self, parent_ids: Vec<u64>) -> (id: u64)
        requires
            old(self).wf(),
            parent_ids@.len() >= 1,
            forall|j: int|
                0 <= j < parent_ids@.len() ==> (#[trigger] parent_ids@[j]) < old(self).next_id,
            old(self).next_id < u64::MAX,
        ensures
            final(self).wf(),
            id == old(self).next_id,
            final(self).next_id == old(self).next_id + 1,
            final(self).k == old(self).k,
            final(self).stitch_threshold == old(self).stitch_threshold,
            final(self).blocks@.len() == old(self).blocks@.len() + 1,
            forall|i: int|
                0 <= i < old(self).blocks@.len() ==> final(self).blocks@[i] == old(
                    self,
                ).blocks@[i],
            final(self).blocks@[id as int].id == id,
            final(self).blocks@[id as int].parents@ == parent_ids@,
            final(self).blocks@[id as int].color == (if anticone_size_spec(
                old(self).blocks@,
                id as int,
                old(self).selected_parent as int,
            ) <= old(self).k as int {
                Color::Blue
            } else {
                Color::Red
            }),
            final(self).blocks@[id as int].hash@ == sha256_of(
                hash_input(id, sort_ids(parent_ids@)),
            ),
            final(self).tip_set() == remove_tips(old(self).tip_set(), parent_ids@).insert(id),
            final(self).tips@.len() >= 1,
            selection_ok(
                final(self).blocks@,
                final(self).tips@,
                old(self).selected_parent,
                final(self).selected_parent,
            ),
    {
        let id = self.next_id;

        // classification happens before the block is linked: its future set
        // is just itself at this instant
        let sp = self.selected_parent;
        let anticone = self.anticone_size(id, sp);
        let color = if anticone <= self.k {
            Color::Blue
        } else {
            Color::Red
        };

        let sorted = sort_u64(&parent_ids);
        let input = build_hash_input(id, &sorted);
        let hash = sha256(&input);

        let parents = copy_ids(&parent_ids);
        let block = Block { id, parents, color, hash };
        let ghost blk = block;
        self.blocks.push(block);
        self.next_id = id + 1;

        let ghost old_blocks = old(self).blocks@;
        let ghost old_tips = old(self).tips@;

        let mut i: usize = 0;
        while i < parent_ids.len()
            invariant
                i <= parent_ids@.len(),
                self.blocks@ == old_blocks.push(blk),
                self.next_id == id + 1,
                self.selected_parent == old(self).selected_parent,
                self.k == old(self).k,
                self.stitch_threshold == old(self).stitch_threshold,
                self.tips@.no_duplicates(),
                forall|t: int| 0 <= t < self.tips@.len() ==> (#[trigger] self.tips@[t]) < id,
                self.tips@.to_set() == remove_tips(old_tips.to_set(), parent_ids@.take(i as int)),
            decreases parent_ids@.len() - i,
        {
            let p = parent_ids[i];
            let ghost pre = self.tips@;
            let is_tip = vec_contains(&self.tips, p);
            if is_tip {
                vec_remove_value(&mut self.tips, p);
            } else {
                proof {
                    assert(!pre.to_set().contains(p));
                    assert(pre.to_set().remove(p) =~= pre.to_set());
                }
            }
            proof {
                assert(self.tips@.to_set() == pre.to_set().remove(p));
                lemma_remove_tips_push(old_tips.to_set(), parent_ids@.take(i as int), p);
                assert(parent_ids@.take(i as int).push(p) =~= parent_ids@.take(i + 1));
                assert forall|t2: int|
                    0 <= t2 < self.tips@.len() implies (#[trigger] self.tips@[t2]) < id by {
                    let y = self.tips@[t2];
                    assert(self.tips@.contains(y));
                    assert(self.tips@.to_set().contains(y));
                    assert(pre.to_set().contains(y));
                    let w = choose|w: int| 0 <= w < pre.len() && pre[w] == y;
                }
            }
            i += 1;
        }
        proof {
            assert(parent_ids@.take(parent_ids@.len() as int) =~= parent_ids@);
            assert(!self.tips@.contains(id)) by {
                if self.tips@.contains(id) {
                    let w = choose|w: int| 0 <= w < self.tips@.len() && self.tips@[w] == id;
                }
            }
        }
        let ghost pre_push = self.tips@;
        self.tips.push(id);
        proof {
            assert(self.tips@.no_duplicates()) by {
                assert forall|a: int, b: int|
                    0 <= a < b < self.tips@.len() implies self.tips@[a] != self.tips@[b] by {
                    if b == self.tips@.len() - 1 {
                        assert(pre_push.contains(pre_push[a]));
                    }
                }
            }
            assert(self.tips@.to_set() =~= pre_push.to_set().insert(id)) by {
                assert forall|y: u64| self.tips@.to_set().contains(y) implies pre_push.to_set()
                    .insert(id).contains(y) by {
                    let w = choose|w: int| 0 <= w < self.tips@.len() && self.tips@[w] == y;
                    if w < pre_push.len() {
                        assert(pre_push[w] == y);
                    }
                }
                assert forall|y: u64| pre_push.to_set().insert(id).contains(y)
                    implies self.tips@.to_set().contains(y) by {
                    if y == id {
                        assert(self.tips@[self.tips@.len() - 1] == y);
                    } else {
                        let w = choose|w: int| 0 <= w < pre_push.len() && pre_push[w] == y;
                        assert(self.tips@[w] == y);
                    }
                }
            }
        }
        proof {
            // the state is well-formed again before the selected parent is
            // recomputed
            assert(self.wf()) by {
                assert forall|i2: int|
                    0 <= i2 < self.blocks@.len() implies (#[trigger] self.blocks@[i2]).id as int
                        == i2 by {
                    if i2 < old_blocks.len() {
                        assert(self.blocks@[i2] == old_blocks[i2]);
                    }
                }
                assert(self.blocks@[0] == old_blocks[0]);
                assert forall|i2: int, j2: int|
                    0 <= i2 < self.blocks@.len() && 0 <= j2 < self.blocks@[i2].parents@.len()
                        implies (#[trigger] self.blocks@[i2].parents@[j2]) < i2 by {
                    if i2 < old_blocks.len() {
                        assert(self.blocks@[i2] == old_blocks[i2]);
                    }
                }
            }
        }
        self.update_selected_parent();
        id
    }

    /// Consolidation: when the tip set has grown past the stitch threshold,
    /// merge the entire current tip set into one new (Blue) block, which is
    /// then the sole tip.
    pub fn stitch_if_needed(&mut self)
        requires
            old(self).wf(),
            old(self).next_id < u64::MAX,
        ensures
            final(self).wf(),
            old(self).tips@.len() > old(self).stitch_threshold ==> {
                &&& final(self).blocks@.len() == old(self).blocks@.len() + 1
                &&& final(self).next_id == old(self).next_id + 1
                &&& final(self).blocks@[old(self).next_id as int].parents@ == old(self).tips@
                &&& final(self).blocks@[old(self).next_id as int].color == Color::Blue
                &&& final(self).tip_set() == set![old(self).next_id]
            },
            old(self).tips@.len() <= old(self).stitch_threshold ==> *final(self) == *old(self),
    {
        if self.tips.len() > self.stitch_threshold {
            proof {
                lemma_next_block_is_blue(*self);
            }
            let snapshot = copy_ids(&self.tips);
            let _merge_id = self.create_block(snapshot);
            proof {
                lemma_remove_tips_all(old(self).tips@);
                assert(Set::<u64>::empty().insert(old(self).next_id) =~= set![old(self).next_id]);
            }
        }
    }
}

/// Is the tip at position `w` colored Blue?
pub open spec fn tip_is_blue(blocks: Seq<Block>, tips: Seq<u64>, w: int) -> bool {
    blocks[tips[w] as int].color == Color::Blue
}

/// What recomputing the selected parent guarantees: if any tip is Blue, the
/// result is a Blue tip whose past set is largest, ties broken towards the
/// smallest id; otherwise the previous selected parent is kept.
pub open spec fn selection_ok(blocks: Seq<Block>, tips: Seq<u64>, prev: u64, sp: u64) -> bool {
    if exists|w: int| 0 <= w < tips.len() && #[trigger] tip_is_blue(blocks, tips, w) {
        &&& exists|w: int|
            0 <= w < tips.len() && #[trigger] tip_is_blue(blocks, tips, w) && tips[w] == sp
        &&& forall|w: int|
            0 <= w < tips.len() && #[trigger] tip_is_blue(blocks, tips, w) ==> past_size(
                blocks,
                tips[w] as int,
            ) < past_size(blocks, sp as int) || (past_size(blocks, tips[w] as int) == past_size(
                blocks,
                sp as int,
            ) && sp <= tips[w])
    } else {
        sp == prev
    }
}

/// A block is always in its own past (and in its own future).
pub proof fn lemma_past_contains_self(d: ToyDag, id: u64)
    ensures
        in_past(d.blocks@, id as int, id as int),
{
}

/// The past set of a block includes the whole past set of each of its
/// parents: anything in the past of a parent is in the past of the child.
pub proof fn lemma_past_superset_of_parent(d: ToyDag, id: u64, p: u64, x: u64)
    requires
        d.wf(),
        (id as int) < d.blocks@.len(),
        d.blocks@[id as int].parents@.contains(p),
        in_past(d.blocks@, x as int, p as int),
    ensures
        in_past(d.blocks@, x as int, id as int),
{
    let blocks = d.blocks@;
    let j = choose|j: int|
        0 <= j < blocks[id as int].parents@.len() && blocks[id as int].parents@[j] == p;
    assert(blocks[id as int].parents@[j] < id as int);
    lemma_reaches_via_intro(
        blocks,
        x as int,
        id as int,
        j,
        blocks[id as int].parents@.len() as int,
    );
}

/// Genesis lies in the past of every stored block, so the future set of
/// genesis covers every created id.
pub proof fn lemma_genesis_reaches_all(d: ToyDag, x: u64)
    requires
        d.wf(),
        (x as int) < d.blocks@.len(),
    ensures
        in_past(d.blocks@, 0, x as int),
    decreases x,
{
    let blocks = d.blocks@;
    if x != 0 {
        assert(blocks[x as int].parents@.len() >= 1);
        let p = blocks[x as int].parents@[0];
        assert((p as int) < x as int);
        lemma_genesis_reaches_all(d, p);
        lemma_reaches_via_intro(blocks, 0, x as int, 0, blocks[x as int].parents@.len() as int);
    }
}

/// Merging every current tip removes all of them: handing a set's own
/// elements as the parent list empties it.
pub proof fn lemma_remove_tips_all(tips: Seq<u64>)
    requires
        tips.no_duplicates(),
    ensures
        remove_tips(tips.to_set(), tips) == Set::<u64>::empty(),
    decreases tips.len(),
{
    if tips.len() == 0 {
        assert forall|y: u64| !tips.to_set().contains(y) by {
            if tips.to_set().contains(y) {
                let w = choose|w: int| 0 <= w < tips.len() && tips[w] == y;
            }
        }
        assert(tips.to_set() =~= Set::<u64>::empty());
    } else {
        let rest = tips.drop_first();
        assert(rest.no_duplicates()) by {
            assert forall|p: int, q: int| 0 <= p < q < rest.len() implies rest[p] != rest[q] by {
                assert(rest[p] == tips[p + 1] && rest[q] == tips[q + 1]);
            }
        }
        assert(tips.to_set().remove(tips[0]) =~= rest.to_set()) by {
            assert forall|y: u64|
                tips.to_set().remove(tips[0]).contains(y) implies rest.to_set().contains(y) by {
                let w = choose|w: int| 0 <= w < tips.len() && tips[w] == y;
                assert(w != 0);
                assert(rest[w - 1] == y);
                assert(rest.contains(y));
            }
            assert forall|y: u64|
                rest.to_set().contains(y) implies tips.to_set().remove(tips[0]).contains(y) by {
                let w = choose|w: int| 0 <= w < rest.len() && rest[w] == y;
                assert(tips[w + 1] == y);
                assert(tips.contains(y));
                assert(tips[w + 1] != tips[0]);
            }
        }
        lemma_remove_tips_all(rest);
        assert(remove_tips(tips.to_set(), tips) == remove_tips(rest.to_set(), rest));
    }
}

/// In a well-formed DAG the next block to be created is always classified
/// Blue, whatever the tolerance: classification is evaluated before linking,
/// when the new id's future set is only itself, so its anticone against the
/// selected parent is zero.
pub proof fn lemma_next_block_is_blue(d: ToyDag)
    requires
        d.wf(),
    ensures
        anticone_size_spec(d.blocks@, d.next_id as int, d.selected_parent as int) == 0,
{
    crate::reach::lemma_unlinked_anticone_zero(
        d.blocks@,
        d.next_id as int,
        d.selected_parent as int,
    );
}

/// Hashing is deterministic: in any two well-formed DAGs, blocks with the
/// same id and the same parent list carry the same digest.
pub proof fn lemma_hash_deterministic(d1: ToyDag, d2: ToyDag, i1: u64, i2: u64)
    requires
        d1.wf(),
        d2.wf(),
        (i1 as int) < d1.blocks@.len(),
        (i2 as int) < d2.blocks@.len(),
        d1.blocks@[i1 as int].id == d2.blocks@[i2 as int].id,
        d1.blocks@[i1 as int].parents@ == d2.blocks@[i2 as int].parents@,
    ensures
        d1.blocks@[i1 as int].hash@ == d2.blocks@[i2 as int].hash@,
{
    assert(i1 as int == d1.blocks@[i1 as int].id as int);
    assert(i2 as int == d2.blocks@[i2 as int].id as int);
    if i1 as int >= 1 {
        assert(i2 as int >= 1);
    } else {
        assert(d1.blocks@[0].hash@ =~= d2.blocks@[0].hash@);
    }
}

/// An element-wise copy of a list of ids.
pub fn copy_ids(v: &Vec<u64>) -> (r: Vec<u64>)
    ensures
        r@ == v@,
{
    let mut r: Vec<u64> = Vec::new();
    let mut i: usize = 0;
    while i < v.len()
        invariant
            i <= v@.len(),
            r@ == v@.take(i as int),
        decreases v@.len() - i,
    {
        r.push(v[i]);
        proof {
            assert(r@ =~= v@.take(i + 1));
        }
        i += 1;
    }
    proof {
        assert(v@.take(v@.len() as int) =~= v@);
    }
    r
}

/// Linear membership scan.
pub fn vec_contains(v: &Vec<u64>, x: u64) -> (r: bool)
    ensures
        r == v@.contains(x),
{
    let mut i: usize = 0;
    while i < v.len()
        invariant
            i <= v@.len(),
            forall|t: int| 0 <= t < i ==> (#[trigger] v@[t]) != x,
        decreases v@.len() - i,
    {
        if v[i] == x {
            return true;
        }
        i += 1;
    }
    false
}

/// The index of the first occurrence of `x`.
pub fn vec_index_of(v: &Vec<u64>, x: u64) -> (i: usize)
    requires
        v@.contains(x),
    ensures
        i < v@.len(),
        v@[i as int] == x,
{
    let mut i: usize = 0;
    while i < v.len()
        invariant
            i <= v@.len(),
            forall|t: int| 0 <= t < i ==> (#[trigger] v@[t]) != x,
        decreases v@.len() - i,
    {
        if v[i] == x {
            return i;
        }
        i += 1;
    }
    proof {
        let w = choose|t: int| 0 <= t < v@.len() && v@[t] == x;
        assert(false);
    }
    0
}

/// Removes the (sole) occurrence of `x` from a duplicate-free vector.
pub fn vec_remove_value(v: &mut Vec<u64>, x: u64)
    requires
        old(v)@.no_duplicates(),
        old(v)@.contains(x),
    ensures
        final(v)@.no_duplicates(),
        final(v)@.to_set() == old(v)@.to_set().remove(x),
        final(v)@.len() == old(v)@.len() - 1,
{
    let i = vec_index_of(v, x);
    let ghost s = v@;
    let ghost idx = i as int;
    v.remove(i);
    proof {
        assert(s[idx] == x);
        assert(v@ =~= s.subrange(0, idx) + s.subrange(idx + 1, s.len() as int));
        // no duplicates: every pair of distinct positions maps to distinct
        // positions of the original sequence
        assert(v@.no_duplicates()) by {
            assert forall|p: int, q: int| 0 <= p < q < v@.len() implies v@[p] != v@[q] by {
                let p0 = if p < idx { p } else { p + 1 };
                let q0 = if q < idx { q } else { q + 1 };
                assert(v@[p] == s[p0] && v@[q] == s[q0]);
            }
        }
        // membership: exactly the old elements other than x
        assert forall|y: u64| v@.contains(y) implies s.to_set().remove(x).contains(y) by {
            let t = choose|t: int| 0 <= t < v@.len() && v@[t] == y;
            let t0 = if t < idx { t } else { t + 1 };
            assert(s[t0] == y);
            assert(s.contains(y));
            assert(t0 != idx);
            assert(y != x);
        }
        assert forall|y: u64| s.to_set().remove(x).contains(y) implies v@.contains(y) by {
            let t0 = choose|t0: int| 0 <= t0 < s.len() && s[t0] == y;
            assert(t0 != idx);
            let t = if t0 < idx { t0 } else { t0 - 1 };
            assert(v@[t] == y);
        }
        assert(v@.to_set() =~= s.to_set().remove(x));
    }
}

} // verus!
