//! Core of a proof-of-stake beacon/shard chain node: per-block state
//! transition, LMD-GHOST fork choice over a block tree re-rooted at each
//! finalized block, an aggregating attestation pool, and the peer sync
//! protocol handler.

pub mod bytes_util;
pub mod beacon_codec;
pub mod chain;
pub mod chain_spec;
pub mod client;
pub mod codec;
pub mod digest;
pub mod epoch;
pub mod fork_choice;
pub mod genesis;
pub mod hash256;
pub mod op_pool;
pub mod rest_api;
pub mod shard_transition;
pub mod shard_types;
pub mod state;
pub mod store;
pub mod sync;
pub mod transition;
pub mod types;

pub use hash256::Hash256;
