//! Collection configuration, consensus operations, and snapshot state.
//!
//! Numeric thresholds that the storage layer treats as fractions are kept
//! as integers in parts per million, so that optimizer decisions stay in
//! integer arithmetic.

use vstd::prelude::*;

verus! {

/// The metric used to compare vectors.
#[derive(Clone, Copy, PartialEq, Eq, Structural, Debug)]
pub enum Distance {
    Cosine,
    Euclid,
    Dot,
}

#[derive(Clone, Copy, PartialEq, Eq, Structural, Debug)]
pub struct HnswConfig {
    pub m: u64,
    pub ef_construct: u64,
    pub full_scan_threshold: u64,
}

#[derive(Clone, Copy, PartialEq, Eq, Structural, Debug)]
pub struct WalConfig {
    pub wal_capacity_mb: u64,
    pub wal_segments_ahead: u64,
}

#[derive(Clone, Copy, PartialEq, Eq, Structural, Debug)]
pub struct OptimizersConfig {
    /// Minimal fraction of deleted vectors in a segment that makes it a
    /// vacuum candidate, in parts per million.
    pub deleted_threshold_ppm: u64,
    /// Minimal number of live vectors in a segment that makes it a vacuum
    /// candidate.
    pub vacuum_min_vector_number: u64,
    /// Target number of segments the merge optimizer keeps.
    pub default_segment_number: u64,
    /// Never create segments holding more points than this.
    pub max_segment_size: u64,
    /// Above this vector count a segment is stored memory-mapped.
    pub memmap_threshold: u64,
    /// Above this vector count a segment gets a vector index.
    pub indexing_threshold: u64,
    /// Above this vector count a segment gets a payload index.
    pub payload_indexing_threshold: u64,
    /// Minimum interval between forced flushes, in seconds.
    pub flush_interval_sec: u64,
    /// Maximum number of optimization worker threads.
    pub max_optimization_threads: u64,
}

#[derive(Clone, Copy, PartialEq, Eq, Structural, Debug)]
pub struct CollectionParams {
    pub vector_size: u64,
    pub distance: Distance,
    pub shard_number: u32,
}

#[derive(Clone, Copy, PartialEq, Eq, Structural, Debug)]
pub struct CollectionConfig {
    pub params: CollectionParams,
    pub hnsw_config: HnswConfig,
    pub wal_config: WalConfig,
    pub optimizer_config: OptimizersConfig,
}

/// The replicated per-collection state carried by snapshots.
#[derive(Clone, Copy, PartialEq, Eq, Structural, Debug)]
pub struct CollectionState {
    pub config: CollectionConfig,
}

/// Partial update of an [`HnswConfig`]: absent fields keep the base value.
#[derive(Clone, Copy, PartialEq, Eq, Debug)]
pub struct HnswConfigDiff {
    pub m: Option<u64>,
    pub ef_construct: Option<u64>,
    pub full_scan_threshold: Option<u64>,
}

#[derive(Clone, Copy, PartialEq, Eq, Debug)]
pub struct WalConfigDiff {
    pub wal_capacity_mb: Option<u64>,
    pub wal_segments_ahead: Option<u64>,
}

#[derive(Clone, Copy, PartialEq, Eq, Debug)]
pub struct OptimizersConfigDiff {
    pub deleted_threshold_ppm: Option<u64>,
    pub vacuum_min_vector_number: Option<u64>,
    pub default_segment_number: Option<u64>,
    pub max_segment_size: Option<u64>,
    pub memmap_threshold: Option<u64>,
    pub indexing_threshold: Option<u64>,
    pub payload_indexing_threshold: Option<u64>,
    pub flush_interval_sec: Option<u64>,
    pub max_optimization_threads: Option<u64>,
}

pub open spec fn merged(base: u64, diff: Option<u64>) -> u64 {
    match diff {
        Some(v) => v,
        None => base,
    }
}

fn pick(base: u64, diff: Option<u64>) -> (r: u64)
    ensures
        r == merged(base, diff),
{
    match diff {
        Some(v) => v,
        None => base,
    }
}

impl HnswConfigDiff {
    pub open spec fn spec_update(self, base: HnswConfig) -> HnswConfig {
        HnswConfig {
            m: merged(base.m, self.m),
            ef_construct: merged(base.ef_construct, self.ef_construct),
            full_scan_threshold: merged(base.full_scan_threshold, self.full_scan_threshold),
        }
    }

    /// The base configuration with every present field replaced.
    pub fn update(&self, base: &HnswConfig) -> (r: HnswConfig)
        ensures
            r == self.spec_update(*base),
    {
        HnswConfig {
            m: pick(base.m, self.m),
            ef_construct: pick(base.ef_construct, self.ef_construct),
            full_scan_threshold: pick(base.full_scan_threshold, self.full_scan_threshold),
        }
    }
}

impl WalConfigDiff {
    pub open spec fn spec_update(self, base: WalConfig) -> WalConfig {
        WalConfig {
            wal_capacity_mb: merged(base.wal_capacity_mb, self.wal_capacity_mb),
            wal_segments_ahead: merged(base.wal_segments_ahead, self.wal_segments_ahead),
        }
    }

    /// The base configuration with every present field replaced.
    pub fn update(&self, base: &WalConfig) -> (r: WalConfig)
        ensures
            r == self.spec_update(*base),
    {
        WalConfig {
            wal_capacity_mb: pick(base.wal_capacity_mb, self.wal_capacity_mb),
            wal_segments_ahead: pick(base.wal_segments_ahead, self.wal_segments_ahead),
        }
    }
}

impl OptimizersConfigDiff {
    pub open spec fn spec_update(self, base: OptimizersConfig) -> OptimizersConfig {
        OptimizersConfig {
            deleted_threshold_ppm: merged(base.deleted_threshold_ppm, self.deleted_threshold_ppm),
            vacuum_min_vector_number: merged(
                base.vacuum_min_vector_number,
                self.vacuum_min_vector_number,
            ),
            default_segment_number: merged(
                base.default_segment_number,
                self.default_segment_number,
            ),
            max_segment_size: merged(base.max_segment_size, self.max_segment_size),
            memmap_threshold: merged(base.memmap_threshold, self.memmap_threshold),
            indexing_threshold: merged(base.indexing_threshold, self.indexing_threshold),
            payload_indexing_threshold: merged(
                base.payload_indexing_threshold,
                self.payload_indexing_threshold,
            ),
            flush_interval_sec: merged(base.flush_interval_sec, self.flush_interval_sec),
            max_optimization_threads: merged(
                base.max_optimization_threads,
                self.max_optimization_threads,
            ),
        }
    }

    /// The base configuration with every present field replaced.
    pub fn update(&self, base: &OptimizersConfig) -> (r: OptimizersConfig)
        ensures
            r == self.spec_update(*base),
    {
        OptimizersConfig {
            deleted_threshold_ppm: pick(base.deleted_threshold_ppm, self.deleted_threshold_ppm),
            vacuum_min_vector_number: pick(
                base.vacuum_min_vector_number,
                self.vacuum_min_vector_number,
            ),
            default_segment_number: pick(
                base.default_segment_number,
                self.default_segment_number,
            ),
            max_segment_size: pick(base.max_segment_size, self.max_segment_size),
            memmap_threshold: pick(base.memmap_threshold, self.memmap_threshold),
            indexing_threshold: pick(base.indexing_threshold, self.indexing_threshold),
            payload_indexing_threshold: pick(
                base.payload_indexing_threshold,
                self.payload_indexing_threshold,
            ),
            flush_interval_sec: pick(base.flush_interval_sec, self.flush_interval_sec),
            max_optimization_threads: pick(
                base.max_optimization_threads,
                self.max_optimization_threads,
            ),
        }
    }
}

/// Storage-wide defaults merged into every new collection.
#[derive(Clone, Debug)]
pub struct StorageConfig {
    pub storage_path: String,
    pub wal: WalConfig,
    pub optimizers: OptimizersConfig,
    pub hnsw_index: HnswConfig,
}

/// Payload of a create-collection operation.
#[derive(Clone, Copy, PartialEq, Eq, Debug)]
pub struct CreateCollection {
    pub vector_size: u64,
    pub distance: Distance,
    pub shard_number: u32,
    pub hnsw_config: Option<HnswConfigDiff>,
    pub wal_config: Option<WalConfigDiff>,
    pub optimizers_config: Option<OptimizersConfigDiff>,
}

/// Payload of an update-collection operation: only the optimizer
/// configuration is mutable.
#[derive(Clone, Copy, PartialEq, Eq, Debug)]
pub struct UpdateCollection {
    pub optimizers_config: Option<OptimizersConfigDiff>,
}

#[derive(Clone, PartialEq, Eq, Debug)]
pub struct CreateCollectionOperation {
    pub collection_name: String,
    pub create_collection: CreateCollection,
}

#[derive(Clone, PartialEq, Eq, Debug)]
pub struct UpdateCollectionOperation {
    pub collection_name: String,
    pub update_collection: UpdateCollection,
}

#[derive(Clone, PartialEq, Eq, Debug)]
pub struct DeleteCollectionOperation(pub String);

/// One alias mutation inside a change-aliases operation.
#[derive(Clone, PartialEq, Eq, Debug)]
pub enum AliasOperations {
    CreateAlias { collection_name: String, alias_name: String },
    DeleteAlias { alias_name: String },
    RenameAlias { old_alias_name: String, new_alias_name: String },
}

#[derive(Clone, PartialEq, Eq, Debug)]
pub struct ChangeAliasesOperation {
    pub actions: Vec<AliasOperations>,
}

/// A replicated collection-metadata mutation.
#[derive(Clone, PartialEq, Eq, Debug)]
pub enum CollectionMetaOperations {
    CreateCollection(CreateCollectionOperation),
    UpdateCollection(UpdateCollectionOperation),
    DeleteCollection(DeleteCollectionOperation),
    ChangeAliases(ChangeAliasesOperation),
}

/// A consensus log payload: either a metadata mutation or a peer joining.
#[derive(Clone, PartialEq, Eq, Debug)]
pub enum ConsensusOperations {
    CollectionMeta(CollectionMetaOperations),
    AddPeer(u64, String),
}

/// Point-in-time image of the replicated state.
#[derive(Clone, PartialEq, Eq, Debug)]
pub struct StateSnapshot {
    pub collections: Vec<(String, CollectionState)>,
    pub aliases: Vec<(String, String)>,
    pub address_by_id: Vec<(u64, String)>,
}

/// The kind of a consensus log entry.
#[derive(Clone, Copy, PartialEq, Eq, Structural, Debug)]
pub enum EntryKind {
    Normal,
    ConfChangeV2,
}

/// A consensus log entry as stored in the metadata write-ahead log.
#[derive(Clone, PartialEq, Eq, Debug)]
pub struct ConsensusEntry {
    pub entry_type: EntryKind,
    pub term: u64,
    pub index: u64,
    pub data: Vec<u8>,
}

// ------------------------------------------------------------------
// Abstract views of the string-bearing operation types.
// ------------------------------------------------------------------

pub enum AliasOperationsV {
    CreateAlias { collection_name: Seq<char>, alias_name: Seq<char> },
    DeleteAlias { alias_name: Seq<char> },
    RenameAlias { old_alias_name: Seq<char>, new_alias_name: Seq<char> },
}

pub enum MetaOpV {
    CreateCollection { collection_name: Seq<char>, create_collection: CreateCollection },
    UpdateCollection { collection_name: Seq<char>, update_collection: UpdateCollection },
    DeleteCollection { collection_name: Seq<char> },
    ChangeAliases { actions: Seq<AliasOperationsV> },
}

pub enum ConsensusOpV {
    CollectionMeta { op: MetaOpV },
    AddPeer { peer_id: u64, uri: Seq<char> },
}

pub struct StateSnapshotV {
    pub collections: Seq<(Seq<char>, CollectionState)>,
    pub aliases: Seq<(Seq<char>, Seq<char>)>,
    pub address_by_id: Seq<(u64, Seq<char>)>,
}

pub struct ConsensusEntryV {
    pub entry_type: EntryKind,
    pub term: u64,
    pub index: u64,
    pub data: Seq<u8>,
}

impl View for AliasOperations {
    type V = AliasOperationsV;

    open spec fn view(&self) -> AliasOperationsV {
        match self {
            AliasOperations::CreateAlias { collection_name, alias_name } => {
                AliasOperationsV::CreateAlias {
                    collection_name: collection_name@,
                    alias_name: alias_name@,
                }
            },
            AliasOperations::DeleteAlias { alias_name } => {
                AliasOperationsV::DeleteAlias { alias_name: alias_name@ }
            },
            AliasOperations::RenameAlias { old_alias_name, new_alias_name } => {
                AliasOperationsV::RenameAlias {
                    old_alias_name: old_alias_name@,
                    new_alias_name: new_alias_name@,
                }
            },
        }
    }
}

impl View for CollectionMetaOperations {
    type V = MetaOpV;

    open spec fn view(&self) -> MetaOpV {
        match self {
            CollectionMetaOperations::CreateCollection(op) => MetaOpV::CreateCollection {
                collection_name: op.collection_name@,
                create_collection: op.create_collection,
            },
            CollectionMetaOperations::UpdateCollection(op) => MetaOpV::UpdateCollection {
                collection_name: op.collection_name@,
                update_collection: op.update_collection,
            },
            CollectionMetaOperations::DeleteCollection(op) => MetaOpV::DeleteCollection {
                collection_name: op.0@,
            },
            CollectionMetaOperations::ChangeAliases(op) => MetaOpV::ChangeAliases {
                actions: op.actions@.map_values(|a: AliasOperations| a@),
            },
        }
    }
}

impl View for ConsensusOperations {
    type V = ConsensusOpV;

    open spec fn view(&self) -> ConsensusOpV {
        match self {
            ConsensusOperations::CollectionMeta(op) => ConsensusOpV::CollectionMeta { op: op@ },
            ConsensusOperations::AddPeer(peer_id, uri) => ConsensusOpV::AddPeer {
                peer_id: *peer_id,
                uri: uri@,
            },
        }
    }
}

impl View for StateSnapshot {
    type V = StateSnapshotV;

    open spec fn view(&self) -> StateSnapshotV {
        StateSnapshotV {
            collections: self.collections@.map_values(
                |e: (String, CollectionState)| (e.0@, e.1),
            ),
            aliases: self.aliases@.map_values(|e: (String, String)| (e.0@, e.1@)),
            address_by_id: self.address_by_id@.map_values(|e: (u64, String)| (e.0, e.1@)),
        }
    }
}

impl View for ConsensusEntry {
    type V = ConsensusEntryV;

    open spec fn view(&self) -> ConsensusEntryV {
        ConsensusEntryV {
            entry_type: self.entry_type,
            term: self.term,
            index: self.index,
            data: self.data@,
        }
    }
}

} // verus!
