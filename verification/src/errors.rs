//! Error taxonomy of the storage layer and of the raft-storage surface.

use vstd::prelude::*;

verus! {

/// Errors surfaced by the table of contents and its stores.
#[derive(Debug)]
pub enum StorageError {
    /// The caller violated a contract (for example `shard_number == 0`).
    BadInput(String),
    /// The named collection does not exist.
    CollectionNotFound(String),
    /// The named alias does not exist.
    AliasNotFound(String),
    /// A collection or alias with this name already exists.
    CollectionAlreadyExists(String),
    /// Internal failure: serialization, missing consensus setup, timeout.
    ServiceError(String),
}

impl StorageError {
    /// The human-readable description carried by every variant.
    pub fn description(&self) -> (r: &String)
        ensures
            *r == self.spec_description(),
    {
        match self {
            StorageError::BadInput(d) => d,
            StorageError::CollectionNotFound(d) => d,
            StorageError::AliasNotFound(d) => d,
            StorageError::CollectionAlreadyExists(d) => d,
            StorageError::ServiceError(d) => d,
        }
    }

    pub open spec fn spec_description(self) -> String {
        match self {
            StorageError::BadInput(d) => d,
            StorageError::CollectionNotFound(d) => d,
            StorageError::AliasNotFound(d) => d,
            StorageError::CollectionAlreadyExists(d) => d,
            StorageError::ServiceError(d) => d,
        }
    }
}

impl Clone for StorageError {
    fn clone(&self) -> (r: Self)
        ensures
            r == *self,
    {
        match self {
            StorageError::BadInput(d) => StorageError::BadInput(d.clone()),
            StorageError::CollectionNotFound(d) => StorageError::CollectionNotFound(d.clone()),
            StorageError::AliasNotFound(d) => StorageError::AliasNotFound(d.clone()),
            StorageError::CollectionAlreadyExists(d) => StorageError::CollectionAlreadyExists(
                d.clone(),
            ),
            StorageError::ServiceError(d) => StorageError::ServiceError(d.clone()),
        }
    }
}

/// Errors of the raft-storage surface, mirroring the consensus engine's
/// storage error kinds.
#[derive(Debug)]
pub enum RaftError {
    /// The requested log index is not available in the metadata log.
    Unavailable,
    /// A snapshot is needed but the commit index has not reached the
    /// requested index yet.
    SnapshotTemporarilyUnavailable,
    /// Any other storage failure, with a description.
    Other(String),
}

impl Clone for RaftError {
    fn clone(&self) -> (r: Self)
        ensures
            r == *self,
    {
        match self {
            RaftError::Unavailable => RaftError::Unavailable,
            RaftError::SnapshotTemporarilyUnavailable => RaftError::SnapshotTemporarilyUnavailable,
            RaftError::Other(d) => RaftError::Other(d.clone()),
        }
    }
}

/// Maps a storage-layer failure onto the catch-all raft storage error,
/// keeping its description.
pub fn raft_error_other(e: &StorageError) -> (r: RaftError)
    ensures
        r == RaftError::Other(e.spec_description()),
{
    RaftError::Other(e.description().clone())
}

} // verus!
