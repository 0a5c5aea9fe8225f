//! A peer-to-peer name-to-value lookup node.
//!
//! The crate implements the core of a distributed key-value store: a local
//! record store, an XOR-distance routing table, the iterative lookup and
//! replication protocol that drives queries to completion, a command
//! dispatcher for the textual user interface, and the event-loop decision
//! logic that ties them together. Network transport and process plumbing are
//! left to the embedding program; the node consumes plain events and emits
//! plain actions.

use vstd::prelude::*;

pub mod bytes;
pub mod command;
pub mod dist;
pub mod node;
pub mod query;
pub mod replicate;
pub mod store;
pub mod table;

verus! {

/// Replication parameter: the capacity of each routing-table bucket and the
/// size of the closest-peer set a lookup converges on.
pub const K: usize = 20;

/// Concurrency parameter: how many peers a lookup round queries in parallel.
pub const ALPHA: usize = 3;

/// A lookup terminates after this many consecutive rounds without finding a
/// candidate closer than the best already known.
pub const NO_IMPROVEMENT_LIMIT: u32 = 3;

/// Every query carries a deadline this far (in milliseconds) past its
/// creation time; on expiry it finalizes with whatever partial result exists.
pub const QUERY_TIMEOUT_MS: u64 = 10000;

/// Capacity of the bounded channel between the input-reading producer and
/// the event loop.
pub const INPUT_CHANNEL_CAPACITY: usize = 100;

} // verus!
