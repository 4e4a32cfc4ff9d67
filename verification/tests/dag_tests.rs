use blockdag::block::Color;
use blockdag::dag::ToyDag;
use sha2::{Digest, Sha256};

fn tip_ids(d: &ToyDag) -> Vec<u64> {
    let mut t = d.tips.clone();
    t.sort();
    t
}

#[test]
fn genesis_is_fixed() {
    let d = ToyDag::new();
    let g = d.get(0).unwrap();
    assert_eq!(g.id, 0);
    assert!(g.parents.is_empty());
    assert_eq!(g.color, Color::Blue);
    assert_eq!(g.hash, [0u8; 32]);
    assert_eq!(d.next_id, 1);
    assert_eq!(d.selected_parent, 0);
    assert_eq!(tip_ids(&d), vec![0]);
}

#[test]
fn lookup_of_unknown_id_is_not_found() {
    let d = ToyDag::new();
    assert!(d.get(1).is_err());
    assert!(d.get(u64::MAX).is_err());
    assert!(d.past_set(1).is_err());
    assert!(d.past_len(7).is_err());
}

#[test]
fn block_hash_matches_sha256_of_id_and_sorted_parents() {
    let mut d = ToyDag::new();
    let id1 = d.create_block(vec![0]);
    assert_eq!(id1, 1);
    let id2 = d.create_block(vec![1, 0]);
    assert_eq!(id2, 2);

    // id 2 with parents [1, 0]: hashed as be(2) || be(0) || be(1)
    let mut h = Sha256::new();
    h.update(2u64.to_be_bytes());
    h.update(0u64.to_be_bytes());
    h.update(1u64.to_be_bytes());
    let expected: [u8; 32] = h.finalize().into();
    let b = d.get(2).unwrap();
    assert_eq!(b.hash, expected);
    // the stored parent list keeps the caller's order
    assert_eq!(b.parents, vec![1, 0]);
}

#[test]
fn hashing_is_deterministic_across_runs() {
    let build = || {
        let mut d = ToyDag::new();
        d.create_block(vec![0]);
        d.create_block(vec![0, 1]);
        d.create_block(vec![2, 1]);
        d
    };
    let d1 = build();
    let d2 = build();
    for id in 0..d1.next_id {
        assert_eq!(d1.get(id).unwrap().hash, d2.get(id).unwrap().hash);
    }
}

#[test]
fn tip_set_never_empty_after_creates() {
    let mut d = ToyDag::new();
    for _ in 0..20 {
        let parents: Vec<u64> = d.tips.clone();
        d.create_block(parents);
        assert!(!d.tips.is_empty());
    }
}

#[test]
fn past_set_contains_self_and_parents_pasts() {
    let mut d = ToyDag::new();
    d.create_block(vec![0]); // 1
    d.create_block(vec![0]); // 2
    d.create_block(vec![1, 2]); // 3
    let past3 = d.past_set(3).unwrap();
    assert!(past3.contains(&3));
    let parents = d.get(3).unwrap().parents.clone();
    for p in parents {
        for x in d.past_set(p).unwrap() {
            assert!(past3.contains(&x));
        }
    }
    let mut sorted = past3.clone();
    sorted.sort();
    assert_eq!(sorted, vec![0, 1, 2, 3]);
}

#[test]
fn future_set_contains_self_and_genesis_future_covers_all() {
    let mut d = ToyDag::new();
    d.create_block(vec![0]); // 1
    d.create_block(vec![1]); // 2
    d.create_block(vec![0]); // 3
    for id in 0..d.next_id {
        assert!(d.future_set(id).contains(&id));
    }
    let mut f0 = d.future_set(0);
    f0.sort();
    assert_eq!(f0, vec![0, 1, 2, 3]);
}

#[test]
fn anticone_size_is_never_negative_and_zero_for_new_ids() {
    let mut d = ToyDag::new();
    d.create_block(vec![0]);
    d.create_block(vec![1]);
    // a brand-new id has a future set of just itself: anticone 0
    assert_eq!(d.anticone_size(d.next_id, d.selected_parent), 0);
    // every pair is well-defined and non-negative by type
    for a in 0..d.next_id {
        for b in 0..d.next_id {
            let _ = d.anticone_size(a, b);
        }
    }
    assert_eq!(d.anticone_size(0, 0), 0);
}

#[test]
fn anticone_size_counts_the_directional_future_difference() {
    let mut d = ToyDag::new();
    d.create_block(vec![0]); // 1
    d.create_block(vec![0]); // 2
    // future(0) = {0, 1, 2}, future(1) = {1}: difference {0, 2} minus one
    assert_eq!(d.anticone_size(0, 1), 1);
    // siblings have singleton futures: difference of one, minus one
    assert_eq!(d.anticone_size(1, 2), 0);
}

#[test]
fn first_child_of_genesis_is_blue_with_id_one() {
    let mut d = ToyDag::new();
    let id = d.create_block(vec![0]);
    assert_eq!(id, 1);
    assert_eq!(d.get(1).unwrap().color, Color::Blue);
    // genesis is no longer a tip: the new block replaces it
    assert_eq!(tip_ids(&d), vec![1]);
    assert_eq!(d.selected_parent, 1);
}

#[test]
fn classification_happens_before_linking_even_with_zero_tolerance() {
    let mut d = ToyDag::with_config(0, 10);
    let a = d.create_block(vec![0]);
    let b = d.create_block(vec![0]);
    // both children are classified against a future set of only themselves,
    // so both come out Blue even with tolerance zero
    assert_eq!(d.get(a).unwrap().color, Color::Blue);
    assert_eq!(d.get(b).unwrap().color, Color::Blue);
}

#[test]
fn stitch_merges_an_overgrown_tip_set() {
    let mut d = ToyDag::new();
    // children of genesis accumulate as tips: the first create replaces
    // genesis, and each later one adds one tip
    for _ in 0..12 {
        d.create_block(vec![0]);
    }
    let before = tip_ids(&d);
    assert!(before.len() > 10);
    let blocks_before = d.next_id;
    d.stitch_if_needed();
    // exactly one merge block was created, with the snapshot as parents
    assert_eq!(d.next_id, blocks_before + 1);
    let merge = d.get(blocks_before).unwrap();
    let mut merge_parents = merge.parents.clone();
    merge_parents.sort();
    assert_eq!(merge_parents, before);
    // every merged tip is gone: the merge block is the sole tip
    let after = tip_ids(&d);
    assert_eq!(after, vec![merge.id]);
    // a second consolidation is a no-op below the threshold
    let n = d.next_id;
    d.stitch_if_needed();
    assert_eq!(d.next_id, n);
}

#[test]
fn selected_parent_is_heaviest_blue_tip_with_smallest_id_tie_break() {
    let mut d = ToyDag::new();
    let a = d.create_block(vec![0]); // past size 2
    let b = d.create_block(vec![0]); // past size 2, larger id
    assert_eq!(d.selected_parent, a);
    let c = d.create_block(vec![a, b]); // past size 4: heaviest
    assert_eq!(d.selected_parent, c);
}
