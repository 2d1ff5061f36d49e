//! A height-indexed, reorg-aware local copy of a blockchain's canonical
//! block sequence, kept consistent with a remote full node.
//!
//! The crate holds the two core components: the reconciliation engine,
//! which decides block by block whether to accept, skip, or roll back
//! locally stored state, and the fetch pipeline, which resequences
//! concurrently fetched blocks into a strictly height-ordered, gap-free
//! stream. The persistent store is an abstract capability set with a
//! verified in-memory implementation.

pub mod block;
pub mod db;
pub mod mem_store;
pub mod indexer;
pub mod prefetcher;
