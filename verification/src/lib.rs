//! Cluster-level table of contents for a vector-collection store.
//!
//! The crate models the per-peer coordinator of named collections: a
//! registry of collections, an alias store, a metadata write-ahead log of
//! consensus entries, persistent raft state, and the coordinator object
//! that applies committed operations and builds and applies snapshots.

pub mod assoc;
pub mod errors;
pub mod alias_store;
pub mod bytes_map;
pub mod codec;
pub mod meta_wal;
pub mod named_map;
pub mod ops;
pub mod optimizers;
pub mod payload;
pub mod payload_storage;
pub mod raft_state;
pub mod toc;

pub use errors::RaftError;
pub use errors::StorageError;
