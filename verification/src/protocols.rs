//! Plain data shapes shared by the indexer, scheduler and router.

use vstd::prelude::*;

verus! {

/// Content hash of a single fixed-size block of tokens, independent of the
/// block's position in its sequence; the indexing key of the cache index.
#[derive(Debug, Clone, Copy, PartialEq, Eq, Structural)]
pub struct LocalBlockHash(pub u64);

/// The cache mutation a router event reports.
#[derive(Debug, Clone, Copy, PartialEq, Eq, Structural)]
pub enum CacheOp {
    /// The worker stored the listed blocks.
    Store,
    /// The worker evicted the listed blocks.
    Remove,
}

/// An immutable fact describing one worker's cache mutation: which worker,
/// which operation, and the block hashes affected.
#[derive(Debug, Clone)]
pub struct RouterEvent {
    pub worker_id: i64,
    pub op: CacheOp,
    pub block_hashes: Vec<LocalBlockHash>,
}

/// The block hashes an event carries, as a sequence of raw hash values.
pub open spec fn event_hashes(e: RouterEvent) -> Seq<u64> {
    e.block_hashes@.map_values(|b: LocalBlockHash| b.0)
}

/// A request to the routing engine: the token ids of the prompt.
#[derive(Debug, Clone)]
pub struct RouterRequest {
    pub tokens: Vec<u32>,
}

/// The routing engine's answer: the chosen worker.
#[derive(Debug, Clone, Copy, PartialEq, Eq, Structural)]
pub struct RouterResponse {
    pub worker_id: i64,
}

/// The scheduler's decision: the chosen worker plus the score components
/// behind the choice, kept for observability.
#[derive(Debug, Clone, Copy, PartialEq, Eq, Structural)]
pub struct WorkerSelectionResult {
    /// The selected worker.
    pub worker_id: i64,
    /// Number of complete blocks in the query the decision was made for.
    pub required_blocks: u64,
    /// How many of the query's leading blocks the selected worker already
    /// holds.
    pub overlap_blocks: u32,
}

} // verus!
