//! Block records and the core error kind.

use vstd::prelude::*;

verus! {

/// The color a block receives from the anticone classification.
#[derive(Clone, Copy, PartialEq, Eq, Structural, Debug)]
pub enum Color {
    Blue,
    Red,
}

/// One block of the DAG: immutable once created, never deleted.
#[derive(Clone, Debug)]
pub struct Block {
    /// Monotonically issued identifier; equals the block's index in the store.
    pub id: u64,
    /// Parent ids, in the order the caller supplied them; empty only for genesis.
    pub parents: Vec<u64>,
    /// Blue or Red, fixed at creation time.
    pub color: Color,
    /// SHA-256 digest of the id and the sorted parent ids.
    pub hash: [u8; 32],
}

/// The only core error: a lookup of an id that was never issued.
#[derive(Clone, Copy, PartialEq, Eq, Structural, Debug)]
pub enum DagError {
    NotFound,
}

} // verus!
