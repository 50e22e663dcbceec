//! A sharded in-memory key-value store with a line-oriented command
//! protocol and an append-only log that is replayed at startup.
use vstd::prelude::*;

pub mod command;
pub mod laws;
pub mod protocol;
pub mod shard;
pub mod store;
pub mod text;

verus! {

/// Number of partitions of the key space.
pub const NUM_SHARDS: usize = 16;

} // verus!
