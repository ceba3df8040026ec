//! A node of a horizontally partitioned, disk-backed cache that fronts a
//! remote blob store.  Clients ask for a file by uid; the node serves it from
//! a local shard, fetches it from blob storage on a miss, or redirects the
//! client to the cluster node that owns the uid's slot.
//!
//! This crate holds the decision core: per-shard LRU bookkeeping and
//! eviction, capacity enforcement, slot-map routing, redirect-URL
//! construction, and the stats snapshot.  Disk and network effects are
//! reported back to the caller as values (filenames to delete, records to
//! write), so every rule here is checked by the verifier.

use vstd::prelude::*;

pub mod hashing;
pub mod manager;
pub mod routing;
pub mod shard;
pub mod stats;

verus! {

/// A node's user-facing cache port is always its coordination-service port
/// plus this fixed offset; the convention is shared by every node of a
/// cluster and is what makes redirect targets computable.
pub open const PORT_OFFSET_TO_WEB_SERVER: u16 = 20000;

/// Number of independently locked shards a cache manager owns.
pub open const SHARD_COUNT: u64 = 3;

} // verus!
