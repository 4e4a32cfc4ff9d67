//! A single node's local view of a GHOSTDAG-style block DAG.
//!
//! Blocks reference multiple parents and are classified Blue or Red by a
//! bounded anticone tolerance; a single selected parent is tracked as the
//! chain-defining ancestor, and an overgrown tip set is consolidated into
//! one merge block.  A forward-error-correction boundary encodes the block
//! digests for loss-tolerant delivery.

pub mod block;
pub mod hashing;
pub mod reach;
pub mod dag;
pub mod fec;
