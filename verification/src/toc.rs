//! The table of contents: the per-peer coordinator of collections.
//!
//! It owns the collection registry, the alias store, the metadata
//! write-ahead log, the persistent raft state, the proposal queue toward
//! the consensus driver, and the correlation store that matches a
//! proposed operation to its outcome. The async runtimes and locks of a
//! running service live outside this crate; the coordinator here is the
//! state and the rules they guard.

use vstd::prelude::*;

use crate::alias_store::without_target;
use crate::alias_store::AliasStore;
use crate::assoc::assoc_map;
use crate::bytes_map::BytesMap;
use crate::codec::decode_consensus_op;
use crate::codec::decode_entry;
use crate::codec::decode_op_full;
use crate::codec::decode_entry_full;
use crate::codec::decode_snapshot;
use crate::codec::decode_snapshot_full;
use crate::codec::enc_consensus_op;
use crate::codec::enc_entry;
use crate::codec::encode_consensus_op;
use crate::codec::encode_entry;
use crate::codec::encode_snapshot;
use crate::codec::law_entry_round_trip;
use crate::codec::law_snapshot_round_trip;
use crate::errors::RaftError;
use crate::errors::StorageError;
use crate::meta_wal::MetaWal;
use crate::named_map::NamedMap;
use crate::ops::AliasOperations;
use crate::ops::AliasOperationsV;
use crate::ops::ChangeAliasesOperation;
use crate::ops::CollectionConfig;
use crate::ops::CollectionMetaOperations;
use crate::ops::CollectionParams;
use crate::ops::CollectionState;
use crate::ops::ConsensusEntry;
use crate::ops::ConsensusEntryV;
use crate::ops::ConsensusOpV;
use crate::ops::ConsensusOperations;
use crate::ops::CreateCollection;
use crate::ops::EntryKind;
use crate::ops::MetaOpV;
use crate::ops::StateSnapshot;
use crate::ops::UpdateCollection;
use crate::ops::StateSnapshotV;
use crate::ops::StorageConfig;
use crate::raft_state::ConfState;
use crate::raft_state::HardState;
use crate::raft_state::RaftPersistentState;
use vstd::string::StringExecFns;

verus! {

/// A collection handle: the replicated metadata of one collection.
#[derive(Clone, Copy, PartialEq, Eq, Structural, Debug)]
pub struct Collection {
    pub config: CollectionConfig,
}

impl Collection {
    pub open spec fn spec_state(&self) -> CollectionState {
        CollectionState { config: self.config }
    }

    /// The replicated state of this collection.
    pub fn state(&self) -> (r: CollectionState)
        ensures
            r == self.spec_state(),
    {
        CollectionState { config: self.config }
    }
}

impl View for Collection {
    type V = Collection;

    open spec fn view(&self) -> Collection {
        *self
    }
}

/// Consensus configuration handed to a newly constructed coordinator.
#[derive(Clone, Copy, PartialEq, Eq, Structural, Debug)]
pub struct ConsensusEnabled {
    pub first_peer: bool,
}

/// The outcome of an applied consensus operation, as delivered to the
/// submitter that awaits it.
#[derive(Debug)]
pub struct Outcome(pub Result<bool, StorageError>);

impl View for Outcome {
    type V = Outcome;

    open spec fn view(&self) -> Outcome {
        *self
    }
}

fn clone_outcome(r: &Result<bool, StorageError>) -> (c: Result<bool, StorageError>)
    ensures
        c == *r,
{
    match r {
        Ok(b) => Ok(*b),
        Err(e) => Err(e.clone()),
    }
}

/// Matches proposed operations (keyed by their encoding) to outcomes.
struct CorrelationStore {
    pending: BytesMap<u8>,
    resolved: BytesMap<Outcome>,
}

/// Error kinds of metadata operations, as the contracts speak of them.
pub enum MetaErr {
    BadInput,
    CollectionNotFound,
    AliasNotFound,
    CollectionAlreadyExists,
    ServiceError,
}

pub open spec fn err_kind(e: StorageError) -> MetaErr {
    match e {
        StorageError::BadInput(_) => MetaErr::BadInput,
        StorageError::CollectionNotFound(_) => MetaErr::CollectionNotFound,
        StorageError::AliasNotFound(_) => MetaErr::AliasNotFound,
        StorageError::CollectionAlreadyExists(_) => MetaErr::CollectionAlreadyExists,
        StorageError::ServiceError(_) => MetaErr::ServiceError,
    }
}

/// The configuration a new collection gets: the request's explicit
/// parameters, and the storage defaults merged with the request's diffs.
pub open spec fn spec_create_config(sc: StorageConfig, c: CreateCollection) -> CollectionConfig {
    CollectionConfig {
        params: CollectionParams {
            vector_size: c.vector_size,
            distance: c.distance,
            shard_number: c.shard_number,
        },
        hnsw_config: match c.hnsw_config {
            None => sc.hnsw_index,
            Some(d) => d.spec_update(sc.hnsw_index),
        },
        wal_config: match c.wal_config {
            None => sc.wal,
            Some(d) => d.spec_update(sc.wal),
        },
        optimizer_config: match c.optimizers_config {
            None => sc.optimizers,
            Some(d) => d.spec_update(sc.optimizers),
        },
    }
}

/// Resolution of a name: substitute the alias binding if one exists, then
/// require the real name to be a collection.
pub open spec fn resolved_name(
    cmap: Map<Seq<char>, Collection>,
    amap: Map<Seq<char>, Seq<char>>,
    name: Seq<char>,
) -> Option<Seq<char>> {
    let target = if amap.contains_key(name) {
        amap[name]
    } else {
        name
    };
    if cmap.contains_key(target) {
        Some(target)
    } else {
        None
    }
}

/// Effect of an ordered list of alias actions. Actions apply left to
/// right; the first failing action stops the run, keeping the effects of
/// the actions before it.
pub open spec fn apply_alias_actions(
    cmap: Map<Seq<char>, Collection>,
    amap: Map<Seq<char>, Seq<char>>,
    actions: Seq<AliasOperationsV>,
) -> (Map<Seq<char>, Seq<char>>, Option<MetaErr>)
    decreases actions.len(),
{
    if actions.len() == 0 {
        (amap, None)
    } else {
        match actions[0] {
            AliasOperationsV::CreateAlias { collection_name, alias_name } => {
                if !cmap.contains_key(collection_name) {
                    (amap, Some(MetaErr::CollectionNotFound))
                } else if cmap.contains_key(alias_name) {
                    (amap, Some(MetaErr::CollectionAlreadyExists))
                } else {
                    apply_alias_actions(
                        cmap,
                        amap.insert(alias_name, collection_name),
                        actions.skip(1),
                    )
                }
            },
            AliasOperationsV::DeleteAlias { alias_name } => apply_alias_actions(
                cmap,
                amap.remove(alias_name),
                actions.skip(1),
            ),
            AliasOperationsV::RenameAlias { old_alias_name, new_alias_name } => {
                if !amap.contains_key(old_alias_name) {
                    (amap, Some(MetaErr::AliasNotFound))
                } else if cmap.contains_key(new_alias_name) {
                    (amap, Some(MetaErr::CollectionAlreadyExists))
                } else {
                    apply_alias_actions(
                        cmap,
                        amap.remove(old_alias_name).insert(new_alias_name, amap[old_alias_name]),
                        actions.skip(1),
                    )
                }
            },
        }
    }
}

/// Outcome of one metadata operation on the replicated maps.
pub struct MetaOutcome {
    pub collections: Map<Seq<char>, Collection>,
    pub aliases: Map<Seq<char>, Seq<char>>,
    pub result: Result<bool, MetaErr>,
}

/// The meaning of every metadata operation.
pub open spec fn apply_meta_op(
    sc: StorageConfig,
    cmap: Map<Seq<char>, Collection>,
    amap: Map<Seq<char>, Seq<char>>,
    op: MetaOpV,
) -> MetaOutcome {
    match op {
        MetaOpV::CreateCollection { collection_name, create_collection } => {
            if create_collection.shard_number == 0 {
                MetaOutcome { collections: cmap, aliases: amap, result: Err(MetaErr::BadInput) }
            } else if cmap.contains_key(collection_name) || amap.contains_key(collection_name) {
                MetaOutcome {
                    collections: cmap,
                    aliases: amap,
                    result: Err(MetaErr::CollectionAlreadyExists),
                }
            } else {
                MetaOutcome {
                    collections: cmap.insert(
                        collection_name,
                        Collection { config: spec_create_config(sc, create_collection) },
                    ),
                    aliases: amap,
                    result: Ok(true),
                }
            }
        },
        MetaOpV::UpdateCollection { collection_name, update_collection } => {
            match update_collection.optimizers_config {
                None => MetaOutcome { collections: cmap, aliases: amap, result: Ok(true) },
                Some(diff) => match resolved_name(cmap, amap, collection_name) {
                    None => MetaOutcome {
                        collections: cmap,
                        aliases: amap,
                        result: Err(MetaErr::CollectionNotFound),
                    },
                    Some(target) => {
                        let c = cmap[target];
                        MetaOutcome {
                            collections: cmap.insert(
                                target,
                                Collection {
                                    config: CollectionConfig {
                                        optimizer_config: diff.spec_update(
                                            c.config.optimizer_config,
                                        ),
                                        ..c.config
                                    },
                                },
                            ),
                            aliases: amap,
                            result: Ok(true),
                        }
                    },
                },
            }
        },
        MetaOpV::DeleteCollection { collection_name } => {
            if cmap.contains_key(collection_name) {
                MetaOutcome {
                    collections: cmap.remove(collection_name),
                    aliases: without_target(amap, collection_name),
                    result: Ok(true),
                }
            } else {
                MetaOutcome { collections: cmap, aliases: amap, result: Ok(false) }
            }
        },
        MetaOpV::ChangeAliases { actions } => {
            let (amap2, err) = apply_alias_actions(cmap, amap, actions);
            MetaOutcome {
                collections: cmap,
                aliases: amap2,
                result: match err {
                    None => Ok(true),
                    Some(k) => Err(k),
                },
            }
        },
    }
}

/// Every live position of the metadata log holds an encoded entry whose
/// index is its position plus one.
pub open spec fn wal_ordered(log: Seq<Seq<u8>>) -> bool {
    forall|i: int|
        0 <= i < log.len() ==> match #[trigger] decode_entry_full(log[i]) {
            Some(e) => e.index == i + 1,
            None => false,
        }
}

pub struct TableOfContent {
    storage_config: StorageConfig,
    collections: NamedMap<Collection>,
    aliases: AliasStore,
    meta_wal: MetaWal,
    raft_state: RaftPersistentState,
    consensus: Option<ConsensusEnabled>,
    proposals: Vec<Vec<u8>>,
    correlation: CorrelationStore,
}

impl TableOfContent {
    // ----- the abstract state -----

    pub closed spec fn collections_map(&self) -> Map<Seq<char>, Collection> {
        self.collections@
    }

    pub closed spec fn collections_kv(&self) -> Seq<(Seq<char>, Collection)> {
        self.collections.kv_seq()
    }

    pub closed spec fn aliases_map(&self) -> Map<Seq<char>, Seq<char>> {
        self.aliases@
    }

    pub closed spec fn aliases_kv(&self) -> Seq<(Seq<char>, Seq<char>)> {
        self.aliases.kv_seq()
    }

    pub closed spec fn wal_log(&self) -> Seq<Seq<u8>> {
        self.meta_wal.log()
    }

    pub closed spec fn spec_hard_state(&self) -> HardState {
        self.raft_state.spec_hard_state()
    }

    pub closed spec fn voters(&self) -> Seq<u64> {
        self.raft_state.voters()
    }

    pub closed spec fn learners(&self) -> Seq<u64> {
        self.raft_state.learners()
    }

    pub closed spec fn addrs(&self) -> Map<u64, Seq<char>> {
        self.raft_state.addrs()
    }

    pub closed spec fn peers_kv(&self) -> Seq<(u64, Seq<char>)> {
        self.raft_state.peers_kv()
    }

    pub closed spec fn spec_this_peer_id(&self) -> u64 {
        self.raft_state.spec_this_peer_id()
    }

    pub closed spec fn unapplied(&self) -> (u64, u64, u64) {
        self.raft_state.unapplied()
    }

    pub open spec fn spec_current_unapplied(&self) -> Option<u64> {
        if self.unapplied().2 <= self.unapplied().1 {
            Some(self.unapplied().2)
        } else {
            None
        }
    }

    pub closed spec fn consensus_enabled(&self) -> bool {
        self.consensus is Some
    }

    pub closed spec fn spec_first_peer(&self) -> bool {
        match self.consensus {
            Some(c) => c.first_peer,
            None => false,
        }
    }

    pub closed spec fn proposals(&self) -> Seq<Seq<u8>> {
        self.proposals@.map_values(|e: Vec<u8>| e@)
    }

    pub closed spec fn is_pending(&self, k: Seq<u8>) -> bool {
        self.correlation.pending@.contains_key(k)
    }

    pub closed spec fn resolved_map(&self) -> Map<Seq<u8>, Outcome> {
        self.correlation.resolved@
    }

    pub closed spec fn spec_storage_config(&self) -> StorageConfig {
        self.storage_config
    }

    pub closed spec fn wf(&self) -> bool {
        &&& self.collections.wf()
        &&& self.aliases.wf()
        &&& self.raft_state.wf()
        &&& self.correlation.pending.wf()
        &&& self.correlation.resolved.wf()
        &&& wal_ordered(self.meta_wal.log())
    }

    // ----- construction -----

    /// A fresh coordinator over empty stores. The caller supplies this
    /// peer's identity; peer identities are drawn outside the library.
    pub fn new(
        storage_config: StorageConfig,
        consensus_enabled: Option<ConsensusEnabled>,
        this_peer_id: u64,
    ) -> (r: Self)
        ensures
            r.wf(),
            r.collections_map() == Map::<Seq<char>, Collection>::empty(),
            r.aliases_map() == Map::<Seq<char>, Seq<char>>::empty(),
            r.wal_log() == Seq::<Seq<u8>>::empty(),
            r.spec_hard_state() == (HardState { term: 0, vote: 0, commit: 0 }),
            r.addrs() == Map::<u64, Seq<char>>::empty(),
            r.spec_this_peer_id() == this_peer_id,
            r.spec_current_unapplied() is None,
            r.consensus_enabled() == (consensus_enabled is Some),
            r.proposals() == Seq::<Seq<u8>>::empty(),
            forall|k: Seq<u8>| !r.is_pending(k),
            r.resolved_map() == Map::<Seq<u8>, Outcome>::empty(),
            r.spec_storage_config() == storage_config,
            r.voters() == match consensus_enabled {
                Some(ce) => if ce.first_peer {
                    seq![this_peer_id]
                } else {
                    Seq::<u64>::empty()
                },
                None => Seq::<u64>::empty(),
            },
    {
        let first_peer = match &consensus_enabled {
            Some(ce) => ce.first_peer,
            None => false,
        };
        let r = TableOfContent {
            storage_config,
            collections: NamedMap::new(),
            aliases: AliasStore::open(),
            meta_wal: MetaWal::open(),
            raft_state: RaftPersistentState::init(this_peer_id, first_peer),
            consensus: consensus_enabled,
            proposals: Vec::new(),
            correlation: CorrelationStore { pending: BytesMap::new(), resolved: BytesMap::new() },
        };
        proof {
            assert(r.proposals() =~= Seq::<Seq<u8>>::empty());
        }
        r
    }

    // ----- name resolution and reads -----

    /// Where a collection's files live: `<storage>/collections/<name>`.
    pub fn get_collection_path(&self, collection_name: &String) -> (r: String)
        ensures
            r@ == self.spec_storage_config().storage_path@ + "/collections/"@ + collection_name@,
    {
        let mut p = self.storage_config.storage_path.clone();
        p.append("/collections/");
        p.append(collection_name.as_str());
        p
    }

    /// Resolves an alias or collection name to the real collection name.
    pub fn resolve(&self, collection_name: &String) -> (r: Result<String, StorageError>)
        requires
            self.wf(),
        ensures
            match r {
                Ok(rn) => resolved_name(self.collections_map(), self.aliases_map(), collection_name@)
                    == Some(rn@),
                Err(e) => resolved_name(self.collections_map(), self.aliases_map(), collection_name@)
                    is None && e is CollectionNotFound,
            },
    {
        let real_name = match self.aliases.get(collection_name) {
            Some(n) => n.clone(),
            None => collection_name.clone(),
        };
        if self.collections.contains_key(&real_name) {
            Ok(real_name)
        } else {
            Err(
                StorageError::CollectionNotFound(
                    String::from_str("collection or alias does not exist"),
                ),
            )
        }
    }

    /// The collection a name or alias refers to.
    pub fn get_collection(&self, collection_name: &String) -> (r: Result<&Collection, StorageError>)
        requires
            self.wf(),
        ensures
            match r {
                Ok(c) => resolved_name(self.collections_map(), self.aliases_map(), collection_name@)
                    matches Some(rn) && self.collections_map()[rn] == *c,
                Err(e) => resolved_name(self.collections_map(), self.aliases_map(), collection_name@)
                    is None && e is CollectionNotFound,
            },
    {
        let real_name = self.resolve(collection_name)?;
        match self.collections.get(&real_name) {
            Some(c) => Ok(c),
            None => Err(
                StorageError::CollectionNotFound(
                    String::from_str("collection or alias does not exist"),
                ),
            ),
        }
    }

    /// Names of all collections, in registry order.
    pub fn all_collections(&self) -> (r: Vec<String>)
        ensures
            r@.len() == self.collections_kv().len(),
            forall|i: int|
                0 <= i < r@.len() ==> #[trigger] r@[i]@ == self.collections_kv()[i].0,
    {
        self.collections.keys()
    }

    /// All aliases of a collection, in store order.
    pub fn collection_aliases(&self, collection_name: &String) -> (r: Result<
        Vec<String>,
        StorageError,
    >)
        ensures
            match r {
                Ok(v) => v@.map_values(|s: String| s@) == crate::alias_store::aliases_of(
                    self.aliases_kv(),
                    collection_name@,
                ),
                Err(_) => false,
            },
    {
        Ok(self.aliases.collection_aliases(collection_name))
    }

    pub fn this_peer_id(&self) -> (r: u64)
        ensures
            r == self.spec_this_peer_id(),
    {
        self.raft_state.this_peer_id()
    }

    /// The next committed entry awaiting apply, if any.
    pub fn current_unapplied_entry(&self) -> (r: Option<u64>)
        ensures
            r == self.spec_current_unapplied(),
    {
        self.raft_state.current_unapplied_entry()
    }
}

} // verus!

verus! {

/// Correspondence between an executable result and the specified outcome:
/// equal success values, or errors of the specified kind.
pub open spec fn result_matches(r: Result<bool, StorageError>, s: Result<bool, MetaErr>) -> bool {
    match (r, s) {
        (Ok(a), Ok(b)) => a == b,
        (Err(e), Err(k)) => err_kind(e) == k,
        _ => false,
    }
}

pub open spec fn same_raft(a: &TableOfContent, b: &TableOfContent) -> bool {
    &&& b.spec_hard_state() == a.spec_hard_state()
    &&& b.voters() == a.voters()
    &&& b.learners() == a.learners()
    &&& b.addrs() == a.addrs()
    &&& b.peers_kv() == a.peers_kv()
    &&& b.spec_this_peer_id() == a.spec_this_peer_id()
    &&& b.unapplied() == a.unapplied()
}

pub open spec fn same_wal(a: &TableOfContent, b: &TableOfContent) -> bool {
    b.wal_log() == a.wal_log()
}

pub open spec fn same_consensus(a: &TableOfContent, b: &TableOfContent) -> bool {
    &&& b.consensus_enabled() == a.consensus_enabled()
    &&& b.spec_first_peer() == a.spec_first_peer()
    &&& b.proposals() == a.proposals()
}

pub open spec fn same_correlation(a: &TableOfContent, b: &TableOfContent) -> bool {
    &&& forall|k: Seq<u8>| b.is_pending(k) == a.is_pending(k)
    &&& b.resolved_map() == a.resolved_map()
}

pub open spec fn same_maps(a: &TableOfContent, b: &TableOfContent) -> bool {
    &&& b.collections_map() == a.collections_map()
    &&& b.aliases_map() == a.aliases_map()
}

pub open spec fn same_config(a: &TableOfContent, b: &TableOfContent) -> bool {
    b.spec_storage_config() == a.spec_storage_config()
}

impl TableOfContent {
    // ----- metadata operations -----

    fn create_collection(&mut self, collection_name: &String, operation: CreateCollection) -> (r:
        Result<bool, StorageError>)
        requires
            old(self).wf(),
        ensures
            final(self).wf(),
            same_raft(old(self), final(self)),
            same_wal(old(self), final(self)),
            same_consensus(old(self), final(self)),
            same_correlation(old(self), final(self)),
            same_config(old(self), final(self)),
            ({
                let out = apply_meta_op(
                    old(self).spec_storage_config(),
                    old(self).collections_map(),
                    old(self).aliases_map(),
                    MetaOpV::CreateCollection {
                        collection_name: collection_name@,
                        create_collection: operation,
                    },
                );
                final(self).collections_map() == out.collections && final(self).aliases_map()
                    == out.aliases && result_matches(r, out.result)
            }),
    {
        if operation.shard_number == 0 {
            return Err(StorageError::BadInput(String::from_str("`shard_number` cannot be 0")));
        }
        if self.collections.contains_key(collection_name) || self.aliases.contains(
            collection_name,
        ) {
            return Err(
                StorageError::CollectionAlreadyExists(
                    String::from_str("a collection or alias with this name already exists"),
                ),
            );
        }
        let hnsw_config = match &operation.hnsw_config {
            None => self.storage_config.hnsw_index,
            Some(d) => d.update(&self.storage_config.hnsw_index),
        };
        let wal_config = match &operation.wal_config {
            None => self.storage_config.wal,
            Some(d) => d.update(&self.storage_config.wal),
        };
        let optimizer_config = match &operation.optimizers_config {
            None => self.storage_config.optimizers,
            Some(d) => d.update(&self.storage_config.optimizers),
        };
        let config = CollectionConfig {
            params: CollectionParams {
                vector_size: operation.vector_size,
                distance: operation.distance,
                shard_number: operation.shard_number,
            },
            hnsw_config,
            wal_config,
            optimizer_config,
        };
        self.collections.insert(collection_name.clone(), Collection { config });
        Ok(true)
    }

    fn update_collection(&mut self, collection_name: &String, operation: UpdateCollection) -> (r:
        Result<bool, StorageError>)
        requires
            old(self).wf(),
        ensures
            final(self).wf(),
            same_raft(old(self), final(self)),
            same_wal(old(self), final(self)),
            same_consensus(old(self), final(self)),
            same_correlation(old(self), final(self)),
            same_config(old(self), final(self)),
            ({
                let out = apply_meta_op(
                    old(self).spec_storage_config(),
                    old(self).collections_map(),
                    old(self).aliases_map(),
                    MetaOpV::UpdateCollection {
                        collection_name: collection_name@,
                        update_collection: operation,
                    },
                );
                final(self).collections_map() == out.collections && final(self).aliases_map()
                    == out.aliases && result_matches(r, out.result)
            }),
    {
        match operation.optimizers_config {
            None => Ok(true),
            Some(diff) => {
                let real_name = self.resolve(collection_name)?;
                let updated = match self.collections.get(&real_name) {
                    Some(c) => {
                        let cfg = c.config;
                        Collection {
                            config: CollectionConfig {
                                optimizer_config: diff.update(&cfg.optimizer_config),
                                ..cfg
                            },
                        }
                    },
                    None => {
                        proof {
                            assert(false);
                        }
                        Collection {
                            config: CollectionConfig {
                                params: CollectionParams {
                                    vector_size: 0,
                                    distance: crate::ops::Distance::Cosine,
                                    shard_number: 1,
                                },
                                hnsw_config: self.storage_config.hnsw_index,
                                wal_config: self.storage_config.wal,
                                optimizer_config: self.storage_config.optimizers,
                            },
                        }
                    },
                };
                self.collections.insert(real_name, updated);
                Ok(true)
            },
        }
    }

    /// Removes a collection and unbinds every alias that pointed at it,
    /// so that no alias is ever left dangling; deleting an absent
    /// collection reports `false`.
    fn delete_collection(&mut self, collection_name: &String) -> (r: Result<bool, StorageError>)
        requires
            old(self).wf(),
        ensures
            final(self).wf(),
            same_raft(old(self), final(self)),
            same_wal(old(self), final(self)),
            same_consensus(old(self), final(self)),
            same_correlation(old(self), final(self)),
            same_config(old(self), final(self)),
            ({
                let out = apply_meta_op(
                    old(self).spec_storage_config(),
                    old(self).collections_map(),
                    old(self).aliases_map(),
                    MetaOpV::DeleteCollection { collection_name: collection_name@ },
                );
                final(self).collections_map() == out.collections && final(self).aliases_map()
                    == out.aliases && result_matches(r, out.result)
            }),
    {
        match self.collections.remove(collection_name) {
            Some(_) => {
                let _ = self.aliases.remove_collection_aliases(collection_name);
                Ok(true)
            },
            None => Ok(false),
        }
    }

    fn update_aliases(&mut self, operation: &ChangeAliasesOperation) -> (r: Result<
        bool,
        StorageError,
    >)
        requires
            old(self).wf(),
        ensures
            final(self).wf(),
            same_raft(old(self), final(self)),
            same_wal(old(self), final(self)),
            same_consensus(old(self), final(self)),
            same_correlation(old(self), final(self)),
            same_config(old(self), final(self)),
            final(self).collections_map() == old(self).collections_map(),
            ({
                let out = apply_alias_actions(
                    old(self).collections_map(),
                    old(self).aliases_map(),
                    operation.actions@.map_values(|a: AliasOperations| a@),
                );
                final(self).aliases_map() == out.0 && match (r, out.1) {
                    (Ok(b), None) => b == true,
                    (Err(e), Some(k)) => err_kind(e) == k,
                    _ => false,
                }
            }),
    {
        let ghost cmap = self.collections_map();
        let ghost amap0 = self.aliases_map();
        let ghost s = operation.actions@.map_values(|a: AliasOperations| a@);
        let n = operation.actions.len();
        let mut i: usize = 0;
        proof {
            assert(s.skip(0) =~= s);
        }
        while i < n
            invariant
                old(self).wf(),
                self.wf(),
                n == operation.actions@.len(),
                s == operation.actions@.map_values(|a: AliasOperations| a@),
                i <= n,
                cmap == old(self).collections_map(),
                amap0 == old(self).aliases_map(),
                self.collections_map() == cmap,
                same_raft(old(self), self),
                same_wal(old(self), self),
                same_consensus(old(self), self),
                same_correlation(old(self), self),
                same_config(old(self), self),
                apply_alias_actions(cmap, amap0, s) == apply_alias_actions(
                    cmap,
                    self.aliases_map(),
                    s.skip(i as int),
                ),
            decreases n - i,
        {
            proof {
                assert(s.skip(i as int)[0] == s[i as int]);
                assert(s.skip(i as int).skip(1) =~= s.skip(i as int + 1));
            }
            match &operation.actions[i] {
                AliasOperations::CreateAlias { collection_name, alias_name } => {
                    if !self.collections.contains_key(collection_name) {
                        return Err(
                            StorageError::CollectionNotFound(
                                String::from_str("alias target collection does not exist"),
                            ),
                        );
                    }
                    if self.collections.contains_key(alias_name) {
                        return Err(
                            StorageError::CollectionAlreadyExists(
                                String::from_str("a collection with the alias name exists"),
                            ),
                        );
                    }
                    let _ = self.aliases.insert(alias_name.clone(), collection_name.clone());
                },
                AliasOperations::DeleteAlias { alias_name } => {
                    let _ = self.aliases.remove(alias_name);
                },
                AliasOperations::RenameAlias { old_alias_name, new_alias_name } => {
                    if !self.aliases.contains(old_alias_name) {
                        return Err(
                            StorageError::AliasNotFound(
                                String::from_str("alias to rename does not exist"),
                            ),
                        );
                    }
                    if self.collections.contains_key(new_alias_name) {
                        return Err(
                            StorageError::CollectionAlreadyExists(
                                String::from_str("a collection with the new alias name exists"),
                            ),
                        );
                    }
                    match self.aliases.rename_alias(old_alias_name, new_alias_name.clone()) {
                        Ok(_) => {},
                        Err(_) => {
                            proof {
                                assert(false);
                            }
                        },
                    }
                },
            }
            i = i + 1;
        }
        proof {
            assert(s.skip(n as int) =~= Seq::<AliasOperationsV>::empty());
        }
        Ok(true)
    }

    /// Applies one metadata operation to the local stores.
    pub fn perform_collection_meta_op(&mut self, operation: CollectionMetaOperations) -> (r:
        Result<bool, StorageError>)
        requires
            old(self).wf(),
        ensures
            final(self).wf(),
            same_raft(old(self), final(self)),
            same_wal(old(self), final(self)),
            same_consensus(old(self), final(self)),
            same_correlation(old(self), final(self)),
            same_config(old(self), final(self)),
            ({
                let out = apply_meta_op(
                    old(self).spec_storage_config(),
                    old(self).collections_map(),
                    old(self).aliases_map(),
                    operation@,
                );
                final(self).collections_map() == out.collections && final(self).aliases_map()
                    == out.aliases && result_matches(r, out.result)
            }),
    {
        match operation {
            CollectionMetaOperations::CreateCollection(op) => self.create_collection(
                &op.collection_name,
                op.create_collection,
            ),
            CollectionMetaOperations::UpdateCollection(op) => self.update_collection(
                &op.collection_name,
                op.update_collection,
            ),
            CollectionMetaOperations::DeleteCollection(op) => self.delete_collection(&op.0),
            CollectionMetaOperations::ChangeAliases(op) => self.update_aliases(&op),
        }
    }
}

} // verus!

verus! {

impl TableOfContent {
    // ----- consensus proposals and correlation -----

    /// Proposes an operation to consensus: registers a waiter keyed by the
    /// operation's encoding and queues the encoded bytes for the driver.
    /// The commit cannot arrive within this synchronous call, so the call
    /// itself reports the wait as timed out; a driver later applies the
    /// entry and [`Self::consensus_op_result`] then yields the outcome.
    pub fn propose_consensus_op(
        &mut self,
        operation: ConsensusOperations,
        _wait_timeout: Option<u64>,
    ) -> (r: Result<bool, StorageError>)
        requires
            old(self).wf(),
        ensures
            final(self).wf(),
            same_raft(old(self), final(self)),
            same_wal(old(self), final(self)),
            same_maps(old(self), final(self)),
            same_config(old(self), final(self)),
            final(self).consensus_enabled() == old(self).consensus_enabled(),
            final(self).spec_first_peer() == old(self).spec_first_peer(),
            r matches Err(e) && e is ServiceError,
            !old(self).consensus_enabled() ==> same_consensus(old(self), final(self))
                && same_correlation(old(self), final(self)),
            old(self).consensus_enabled() ==> ({
                let key = enc_consensus_op(operation@);
                &&& final(self).proposals() == old(self).proposals().push(key)
                &&& forall|k: Seq<u8>|
                    final(self).is_pending(k) <==> old(self).is_pending(k) || k == key
                &&& final(self).resolved_map() == old(self).resolved_map().remove(key)
            }),
    {
        if self.consensus.is_none() {
            return Err(
                StorageError::ServiceError(
                    String::from_str(
                        "cannot submit consensus operation proposal: consensus is not enabled",
                    ),
                ),
            );
        }
        let serialized = encode_consensus_op(&operation);
        let key = vstd::slice::slice_to_vec(serialized.as_slice());
        self.correlation.pending.insert(key, 0);
        let _ = self.correlation.resolved.remove(&serialized);
        let ghost before = self.proposals@.map_values(|e: Vec<u8>| e@);
        let ghost keyv = serialized@;
        self.proposals.push(serialized);
        proof {
            assert(self.proposals() =~= before.push(keyv));
        }
        Err(
            StorageError::ServiceError(
                String::from_str("waiting for consensus operation commit timed out"),
            ),
        )
    }

    /// Submits a metadata operation: applies it locally when consensus is
    /// disabled, otherwise proposes it to consensus.
    pub fn submit_collection_operation(
        &mut self,
        operation: CollectionMetaOperations,
        wait_timeout: Option<u64>,
    ) -> (r: Result<bool, StorageError>)
        requires
            old(self).wf(),
        ensures
            final(self).wf(),
            same_raft(old(self), final(self)),
            same_wal(old(self), final(self)),
            same_config(old(self), final(self)),
            final(self).consensus_enabled() == old(self).consensus_enabled(),
            final(self).spec_first_peer() == old(self).spec_first_peer(),
            !old(self).consensus_enabled() ==> same_consensus(old(self), final(self))
                && same_correlation(old(self), final(self)) && ({
                let out = apply_meta_op(
                    old(self).spec_storage_config(),
                    old(self).collections_map(),
                    old(self).aliases_map(),
                    operation@,
                );
                final(self).collections_map() == out.collections && final(self).aliases_map()
                    == out.aliases && result_matches(r, out.result)
            }),
            old(self).consensus_enabled() ==> same_maps(old(self), final(self)) && ({
                let key = enc_consensus_op(ConsensusOpV::CollectionMeta { op: operation@ });
                &&& final(self).proposals() == old(self).proposals().push(key)
                &&& forall|k: Seq<u8>|
                    final(self).is_pending(k) <==> old(self).is_pending(k) || k == key
                &&& final(self).resolved_map() == old(self).resolved_map().remove(key)
                &&& r matches Err(e) && e is ServiceError
            }),
    {
        if self.consensus.is_some() {
            self.propose_consensus_op(ConsensusOperations::CollectionMeta(operation), wait_timeout)
        } else {
            self.perform_collection_meta_op(operation)
        }
    }

    /// The outcome of a proposed operation, once a driver has applied its
    /// entry. Polling removes the outcome.
    pub fn consensus_op_result(&mut self, operation: &ConsensusOperations) -> (r: Option<
        Result<bool, StorageError>,
    >)
        requires
            old(self).wf(),
        ensures
            final(self).wf(),
            same_raft(old(self), final(self)),
            same_wal(old(self), final(self)),
            same_maps(old(self), final(self)),
            same_consensus(old(self), final(self)),
            same_config(old(self), final(self)),
            forall|k: Seq<u8>| final(self).is_pending(k) == old(self).is_pending(k),
            ({
                let key = enc_consensus_op(operation@);
                &&& final(self).resolved_map() == old(self).resolved_map().remove(key)
                &&& match r {
                    Some(v) => old(self).resolved_map().contains_key(key) && old(
                        self,
                    ).resolved_map()[key] == Outcome(v),
                    None => !old(self).resolved_map().contains_key(key),
                }
            }),
    {
        let key = encode_consensus_op(operation);
        match self.correlation.resolved.remove(&key) {
            Some(o) => Some(o.0),
            None => None,
        }
    }

    /// Hands the oldest queued proposal to the consensus driver.
    pub fn take_proposal(&mut self) -> (r: Option<Vec<u8>>)
        requires
            old(self).wf(),
        ensures
            final(self).wf(),
            same_raft(old(self), final(self)),
            same_wal(old(self), final(self)),
            same_maps(old(self), final(self)),
            same_correlation(old(self), final(self)),
            same_config(old(self), final(self)),
            final(self).consensus_enabled() == old(self).consensus_enabled(),
            final(self).spec_first_peer() == old(self).spec_first_peer(),
            match r {
                Some(b) => old(self).proposals().len() > 0 && b@ == old(self).proposals()[0]
                    && final(self).proposals() == old(self).proposals().skip(1),
                None => old(self).proposals().len() == 0 && final(self).proposals() == old(
                    self,
                ).proposals(),
            },
    {
        if self.proposals.len() > 0 {
            let b = self.proposals.remove(0);
            proof {
                assert(self.proposals() =~= old(self).proposals().skip(1));
            }
            Some(b)
        } else {
            proof {
                assert(self.proposals() =~= old(self).proposals());
            }
            None
        }
    }
}

} // verus!

verus! {

/// Number of entries the storage query must yield: the half-open range
/// `[low, high)` bounded by `max_size` (a count, not bytes).
pub open spec fn spec_entry_count(low: u64, high: u64, max_size: Option<u64>) -> int {
    let span: int = if high >= low {
        high - low
    } else {
        0
    };
    match max_size {
        Some(m) => if m < span {
            m as int
        } else {
            span
        },
        None => span,
    }
}

impl TableOfContent {
    /// Appends consensus entries to the metadata log. Each entry's index
    /// must continue the log: the entry at position `p` carries index
    /// `p + 1`.
    pub fn append_entries(&mut self, entries: Vec<ConsensusEntry>) -> (r: Result<
        (),
        StorageError,
    >)
        requires
            old(self).wf(),
            forall|k: int|
                0 <= k < entries@.len() ==> (#[trigger] entries@[k]).index == old(
                    self,
                ).wal_log().len() + 1 + k,
        ensures
            final(self).wf(),
            same_raft(old(self), final(self)),
            same_maps(old(self), final(self)),
            same_consensus(old(self), final(self)),
            same_correlation(old(self), final(self)),
            same_config(old(self), final(self)),
            final(self).wal_log() == old(self).wal_log() + entries@.map_values(
                |e: ConsensusEntry| enc_entry(e@),
            ),
            r is Ok,
    {
        let ghost s = entries@.map_values(|e: ConsensusEntry| enc_entry(e@));
        let n = entries.len();
        let mut j: usize = 0;
        proof {
            assert(old(self).wal_log() + s.take(0) =~= old(self).wal_log());
        }
        while j < n
            invariant
                old(self).wf(),
                self.wf(),
                n == entries@.len(),
                s == entries@.map_values(|e: ConsensusEntry| enc_entry(e@)),
                j <= n,
                forall|k: int|
                    0 <= k < entries@.len() ==> (#[trigger] entries@[k]).index == old(
                        self,
                    ).wal_log().len() + 1 + k,
                self.wal_log() == old(self).wal_log() + s.take(j as int),
                same_raft(old(self), self),
                same_maps(old(self), self),
                same_consensus(old(self), self),
                same_correlation(old(self), self),
                same_config(old(self), self),
            decreases n - j,
        {
            let bytes = encode_entry(&entries[j]);
            proof {
                law_entry_round_trip(entries@[j as int]@);
            }
            let _ = self.meta_wal.append(bytes);
            proof {
                assert(self.wal_log() =~= old(self).wal_log() + s.take(j as int + 1));
                assert forall|i: int| 0 <= i < self.wal_log().len() implies match
                    #[trigger] decode_entry_full(self.wal_log()[i]) {
                    Some(e) => e.index == i + 1,
                    None => false,
                } by {
                    if i < old(self).wal_log().len() {
                        assert(self.wal_log()[i] == old(self).wal_log()[i]);
                    } else {
                        let k = i - old(self).wal_log().len();
                        assert(self.wal_log()[i] == s[k]);
                    }
                }
            }
            j = j + 1;
        }
        proof {
            assert(s.take(n as int) =~= s);
        }
        Ok(())
    }

    /// Appends entries after checking that each continues the log; on the
    /// first gap nothing at all is appended and an error reports it.
    pub fn append_entries_checked(&mut self, entries: Vec<ConsensusEntry>) -> (r: Result<
        (),
        StorageError,
    >)
        requires
            old(self).wf(),
        ensures
            final(self).wf(),
            same_raft(old(self), final(self)),
            same_maps(old(self), final(self)),
            same_consensus(old(self), final(self)),
            same_correlation(old(self), final(self)),
            same_config(old(self), final(self)),
            if forall|k: int|
                0 <= k < entries@.len() ==> (#[trigger] entries@[k]).index == old(
                    self,
                ).wal_log().len() + 1 + k {
                final(self).wal_log() == old(self).wal_log() + entries@.map_values(
                    |e: ConsensusEntry| enc_entry(e@),
                ) && r is Ok
            } else {
                final(self).wal_log() == old(self).wal_log() && (r matches Err(e) && e
                    is ServiceError)
            },
    {
        let n = entries.len();
        let base = self.meta_wal.num_entries();
        let mut j: usize = 0;
        while j < n
            invariant
                self == old(self),
                old(self).wf(),
                n == entries@.len(),
                base == self.wal_log().len(),
                j <= n,
                forall|k: int|
                    0 <= k < j ==> (#[trigger] entries@[k]).index == self.wal_log().len() + 1 + k,
            decreases n - j,
        {
            let expected: u128 = base as u128 + 1 + j as u128;
            if entries[j].index as u128 != expected {
                return Err(
                    StorageError::ServiceError(
                        String::from_str("appended entry does not continue the log"),
                    ),
                );
            }
            j = j + 1;
        }
        self.append_entries(entries)
    }

    /// The consensus entry stored at a one-based log index.
    pub fn collection_wal_entry(&self, id: u64) -> (r: Result<ConsensusEntry, RaftError>)
        ensures
            match r {
                Ok(en) => 1 <= id && id <= self.wal_log().len() && decode_entry_full(
                    self.wal_log()[id - 1],
                ) == Some(en@),
                Err(e) => match e {
                    RaftError::Unavailable => id < 1 || self.wal_log().len() < id,
                    RaftError::Other(_) => 1 <= id && id <= self.wal_log().len()
                        && decode_entry_full(self.wal_log()[id - 1]) is None,
                    RaftError::SnapshotTemporarilyUnavailable => false,
                },
            },
    {
        if id < 1 {
            return Err(RaftError::Unavailable);
        }
        match self.meta_wal.entry(id - 1) {
            None => Err(RaftError::Unavailable),
            Some(bytes) => match decode_entry(bytes.as_slice()) {
                Some(en) => Ok(en),
                None => Err(
                    RaftError::Other(String::from_str("stored log entry failed to decode")),
                ),
            },
        }
    }

    /// The entries in `[low, high)`, at most `max_size` of them.
    #[verifier::loop_isolation(false)]
    pub fn entries(&self, low: u64, high: u64, max_size: Option<u64>) -> (r: Result<
        Vec<ConsensusEntry>,
        RaftError,
    >)
        ensures
            match r {
                Ok(v) => v@.len() == spec_entry_count(low, high, max_size) && (spec_entry_count(
                    low,
                    high,
                    max_size,
                ) > 0 ==> 1 <= low) && (forall|k: int|
                    0 <= k < spec_entry_count(low, high, max_size) ==> low + k
                        <= self.wal_log().len() && decode_entry_full(
                        #[trigger] self.wal_log()[low + k - 1],
                    ) == Some(v@[k]@)),
                Err(_) => exists|k: int|
                    0 <= k < spec_entry_count(low, high, max_size) && (low + k < 1
                        || self.wal_log().len() < low + k || decode_entry_full(
                        #[trigger] self.wal_log()[low + k - 1],
                    ) is None),
            },
    {
        let span: u64 = if high >= low {
            high - low
        } else {
            0
        };
        let count: u64 = match max_size {
            Some(m) => if m < span {
                m
            } else {
                span
            },
            None => span,
        };
        let mut v: Vec<ConsensusEntry> = Vec::new();
        let mut k: u64 = 0;
        while k < count
            invariant
                count == spec_entry_count(low, high, max_size),
                count > 0 ==> low + count <= high,
                k <= count,
                v@.len() == k,
                k > 0 ==> 1 <= low,
                forall|i: int|
                    0 <= i < k ==> 1 <= low && low + i <= self.wal_log().len()
                        && decode_entry_full(self.wal_log()[low + i - 1]) == Some(
                        (#[trigger] v@[i])@,
                    ),
            decreases count - k,
        {
            match self.collection_wal_entry(low + k) {
                Ok(en) => {
                    v.push(en);
                },
                Err(e) => {
                    proof {
                        let ki = k as int;
                        assert(0 <= ki < count && (low + ki < 1 || self.wal_log().len() < low + ki
                            || decode_entry_full(self.wal_log()[low + ki - 1]) is None));
                    }
                    return Err(e);
                },
            }
            k = k + 1;
        }
        proof {
            let count_s = spec_entry_count(low, high, max_size);
            assert forall|i: int| 0 <= i < count_s implies low + i <= self.wal_log().len()
                && decode_entry_full(#[trigger] self.wal_log()[low + i - 1]) == Some(
                v@[i]@,
            ) by {
                assert(0 <= i < k);
                assert(decode_entry_full(self.wal_log()[low + i - 1]) == Some((v@[i])@));
            }
        }
        Ok(v)
    }

    /// The term of the entry at an index; answered from the hard state
    /// when the index is the commit index.
    pub fn term(&self, idx: u64) -> (r: Result<u64, RaftError>)
        ensures
            match r {
                Ok(t) => (idx == self.spec_hard_state().commit && t == self.spec_hard_state().term)
                    || (idx != self.spec_hard_state().commit && 1 <= idx && idx
                    <= self.wal_log().len() && (decode_entry_full(self.wal_log()[idx - 1]) matches
                    Some(e) && e.term == t)),
                Err(e) => idx != self.spec_hard_state().commit && match e {
                    RaftError::Unavailable => idx < 1 || self.wal_log().len() < idx,
                    RaftError::Other(_) => 1 <= idx && idx <= self.wal_log().len()
                        && decode_entry_full(self.wal_log()[idx - 1]) is None,
                    RaftError::SnapshotTemporarilyUnavailable => false,
                },
            },
    {
        let hs = self.raft_state.hard_state();
        if idx == hs.commit {
            return Ok(hs.term);
        }
        match self.collection_wal_entry(idx) {
            Ok(en) => Ok(en.term),
            Err(e) => Err(e),
        }
    }

    /// One-based index of the first queryable log entry. The metadata log
    /// never truncates, so this is always one.
    pub fn first_index(&self) -> (r: Result<u64, RaftError>)
        ensures
            r matches Ok(v) && v == 1,
    {
        Ok(self.meta_wal.first_index() + 1)
    }

    /// One-based index of the last log entry.
    pub fn last_index(&self) -> (r: Result<u64, RaftError>)
        ensures
            r matches Ok(v) && v == self.wal_log().len(),
    {
        Ok(self.meta_wal.num_entries())
    }

    // ----- raft persistent-state surface -----

    pub fn hard_state(&self) -> (r: Result<HardState, StorageError>)
        ensures
            r matches Ok(hs) && hs == self.spec_hard_state(),
    {
        Ok(self.raft_state.hard_state())
    }

    pub fn set_hard_state(&mut self, hard_state: HardState) -> (r: Result<(), StorageError>)
        requires
            old(self).wf(),
        ensures
            final(self).wf(),
            same_maps(old(self), final(self)),
            same_wal(old(self), final(self)),
            same_consensus(old(self), final(self)),
            same_correlation(old(self), final(self)),
            same_config(old(self), final(self)),
            final(self).spec_hard_state() == hard_state,
            final(self).voters() == old(self).voters(),
            final(self).learners() == old(self).learners(),
            final(self).addrs() == old(self).addrs(),
            final(self).peers_kv() == old(self).peers_kv(),
            final(self).spec_this_peer_id() == old(self).spec_this_peer_id(),
            final(self).unapplied() == old(self).unapplied(),
            r is Ok,
    {
        self.raft_state.set_hard_state(hard_state);
        Ok(())
    }

    pub fn set_commit_index(&mut self, index: u64) -> (r: Result<(), StorageError>)
        requires
            old(self).wf(),
        ensures
            final(self).wf(),
            same_maps(old(self), final(self)),
            same_wal(old(self), final(self)),
            same_consensus(old(self), final(self)),
            same_correlation(old(self), final(self)),
            same_config(old(self), final(self)),
            final(self).spec_hard_state() == (HardState {
                commit: index,
                ..old(self).spec_hard_state()
            }),
            final(self).voters() == old(self).voters(),
            final(self).learners() == old(self).learners(),
            final(self).addrs() == old(self).addrs(),
            final(self).peers_kv() == old(self).peers_kv(),
            final(self).spec_this_peer_id() == old(self).spec_this_peer_id(),
            final(self).unapplied() == old(self).unapplied(),
            r is Ok,
    {
        self.raft_state.set_commit_index(index);
        Ok(())
    }

    /// Registers a peer's address.
    pub fn add_peer(&mut self, peer_id: u64, uri: String) -> (r: Result<(), StorageError>)
        requires
            old(self).wf(),
        ensures
            final(self).wf(),
            same_maps(old(self), final(self)),
            same_wal(old(self), final(self)),
            same_consensus(old(self), final(self)),
            same_correlation(old(self), final(self)),
            same_config(old(self), final(self)),
            final(self).addrs() == old(self).addrs().insert(peer_id, uri@),
            final(self).spec_hard_state() == old(self).spec_hard_state(),
            final(self).voters() == old(self).voters(),
            final(self).learners() == old(self).learners(),
            final(self).spec_this_peer_id() == old(self).spec_this_peer_id(),
            final(self).unapplied() == old(self).unapplied(),
            r is Ok,
    {
        self.raft_state.insert_peer(peer_id, uri);
        Ok(())
    }

    /// Every known peer address, as identifier/address pairs.
    pub fn peer_address_by_id(&self) -> (r: Result<Vec<(u64, String)>, StorageError>)
        requires
            self.wf(),
        ensures
            r matches Ok(v) && v@.map_values(|e: (u64, String)| (e.0, e.1@)) == self.peers_kv()
                && assoc_map(v@.map_values(|e: (u64, String)| (e.0, e.1@))) == self.addrs(),
    {
        Ok(self.raft_state.peer_address_by_id())
    }

    /// The raft membership this peer knows.
    pub fn conf_state(&self) -> (r: &ConfState)
        ensures
            r.voters@ == self.voters(),
            r.learners@ == self.learners(),
    {
        self.raft_state.conf_state()
    }

    /// Marks the range of committed entries the driver wants applied.
    pub fn set_unapplied_entries(&mut self, first_index: u64, last_index: u64) -> (r: Result<
        (),
        RaftError,
    >)
        requires
            old(self).wf(),
            last_index < u64::MAX,
        ensures
            final(self).wf(),
            same_maps(old(self), final(self)),
            same_wal(old(self), final(self)),
            same_consensus(old(self), final(self)),
            same_correlation(old(self), final(self)),
            same_config(old(self), final(self)),
            final(self).unapplied() == (first_index, last_index, first_index),
            final(self).spec_hard_state() == old(self).spec_hard_state(),
            final(self).voters() == old(self).voters(),
            final(self).learners() == old(self).learners(),
            final(self).addrs() == old(self).addrs(),
            final(self).peers_kv() == old(self).peers_kv(),
            final(self).spec_this_peer_id() == old(self).spec_this_peer_id(),
            r is Ok,
    {
        self.raft_state.set_unapplied_entries(first_index, last_index);
        Ok(())
    }
}

} // verus!

verus! {

/// The name/state pairs a registry contributes to a snapshot.
pub open spec fn collection_state_pairs(s: Seq<(Seq<char>, Collection)>) -> Seq<
    (Seq<char>, CollectionState),
> {
    s.map_values(|p: (Seq<char>, Collection)| (p.0, p.1.spec_state()))
}

/// The collection map described by a snapshot's name/state pairs; on
/// duplicate names the later pair wins.
pub open spec fn snap_collections_map(s: Seq<(Seq<char>, CollectionState)>) -> Map<
    Seq<char>,
    Collection,
> 
    decreases s.len(),
{
    if s.len() == 0 {
        Map::empty()
    } else {
        snap_collections_map(s.drop_last()).insert(
            s.last().0,
            Collection { config: s.last().1.config },
        )
    }
}

/// Folding snapshot pairs into a base map, later pairs winning.
pub open spec fn insert_state_pairs(
    m: Map<Seq<char>, Collection>,
    s: Seq<(Seq<char>, CollectionState)>,
) -> Map<Seq<char>, Collection>
    decreases s.len(),
{
    if s.len() == 0 {
        m
    } else {
        insert_state_pairs(m, s.drop_last()).insert(
            s.last().0,
            Collection { config: s.last().1.config },
        )
    }
}

/// Some snapshot pair carries this name.
pub open spec fn snap_has_name(s: Seq<(Seq<char>, CollectionState)>, k: Seq<char>) -> bool {
    exists|i: int| 0 <= i < s.len() && (#[trigger] s[i]).0 == k
}

/// Relates the fold over a base map to the map the pairs alone denote.
proof fn lemma_insert_pairs_assoc(
    m: Map<Seq<char>, Collection>,
    s: Seq<(Seq<char>, CollectionState)>,
)
    ensures
        forall|k: Seq<char>|
            #[trigger] insert_state_pairs(m, s).contains_key(k) <==> m.contains_key(k)
                || snap_collections_map(s).contains_key(k),
        forall|k: Seq<char>|
            #[trigger] snap_collections_map(s).contains_key(k) ==> insert_state_pairs(m, s)[k]
                == snap_collections_map(s)[k],
        forall|k: Seq<char>|
            !snap_collections_map(s).contains_key(k) && #[trigger] m.contains_key(k)
                ==> insert_state_pairs(m, s)[k] == m[k],
        forall|k: Seq<char>|
            #[trigger] snap_collections_map(s).contains_key(k) <==> snap_has_name(s, k),
    decreases s.len(),
{
    if s.len() == 0 {
        assert(snap_collections_map(s) == Map::<Seq<char>, Collection>::empty());
        assert(insert_state_pairs(m, s) == m);
        assert forall|k: Seq<char>|
            #[trigger] snap_collections_map(s).contains_key(k) <==> snap_has_name(s, k) by {
            assert(!Map::<Seq<char>, Collection>::empty().dom().contains(k));
            assert(!snap_has_name(s, k));
        }
    } else {
        lemma_insert_pairs_assoc(m, s.drop_last());
        let key0 = s.last().0;
        let val0 = Collection { config: s.last().1.config };
        let ips = insert_state_pairs(m, s.drop_last());
        let scp = snap_collections_map(s.drop_last());
        assert(insert_state_pairs(m, s) == ips.insert(key0, val0));
        assert(snap_collections_map(s) == scp.insert(key0, val0));
        assert forall|k: Seq<char>|
            #[trigger] insert_state_pairs(m, s).contains_key(k) <==> m.contains_key(k)
                || snap_collections_map(s).contains_key(k) by {
            if k != key0 {
                assert(insert_state_pairs(m, s).contains_key(k) == ips.contains_key(k));
                assert(snap_collections_map(s).contains_key(k) == scp.contains_key(k));
            }
        }
        assert forall|k: Seq<char>|
            #[trigger] snap_collections_map(s).contains_key(k) implies insert_state_pairs(m, s)[k]
            == snap_collections_map(s)[k] by {
            if k != key0 {
                assert(snap_collections_map(s)[k] == scp[k]);
                assert(insert_state_pairs(m, s)[k] == ips[k]);
            }
        }
        assert forall|k: Seq<char>|
            !snap_collections_map(s).contains_key(k) && #[trigger] m.contains_key(k)
                implies insert_state_pairs(m, s)[k] == m[k] by {
            if !snap_collections_map(s).contains_key(k) {
                assert(k != key0);
                assert(!scp.contains_key(k));
            }
        }
        assert forall|k: Seq<char>|
            #[trigger] snap_collections_map(s).contains_key(k) <==> snap_has_name(s, k) by {
            if k == key0 {
                assert((#[trigger] s[s.len() - 1]).0 == k);
            } else {
                if snap_has_name(s, k) {
                    let i = choose|i: int| 0 <= i < s.len() && (#[trigger] s[i]).0 == k;
                    assert((s.drop_last()[i]).0 == k);
                    assert(snap_has_name(s.drop_last(), k));
                }
                if snap_has_name(s.drop_last(), k) {
                    let i = choose|i: int|
                        0 <= i < s.drop_last().len() && (#[trigger] s.drop_last()[i]).0 == k;
                    assert((s[i]).0 == k);
                }
            }
        }
    }
}

impl TableOfContent {
    /// Applies one committed normal entry: decode the operation, drop its
    /// correlation slot, execute it, and record the outcome for a waiter
    /// that registered it.
    pub fn apply_normal_entry(&mut self, entry: &ConsensusEntry) -> (r: Result<bool, StorageError>)
        requires
            old(self).wf(),
        ensures
            final(self).wf(),
            same_wal(old(self), final(self)),
            same_consensus(old(self), final(self)),
            same_config(old(self), final(self)),
            final(self).spec_hard_state() == old(self).spec_hard_state(),
            final(self).voters() == old(self).voters(),
            final(self).learners() == old(self).learners(),
            final(self).spec_this_peer_id() == old(self).spec_this_peer_id(),
            final(self).unapplied() == old(self).unapplied(),
            match decode_op_full(entry.data@) {
                None => (r matches Err(e) && e is ServiceError) && same_maps(old(self), final(self))
                    && same_correlation(old(self), final(self)) && final(self).addrs()
                    == old(self).addrs() && final(self).peers_kv() == old(self).peers_kv(),
                Some(opv) => ({
                    let key = entry.data@;
                    &&& (forall|k: Seq<u8>|
                        final(self).is_pending(k) <==> old(self).is_pending(k) && k != key)
                    &&& final(self).resolved_map() == if old(self).is_pending(key) {
                        old(self).resolved_map().insert(key, Outcome(r))
                    } else {
                        old(self).resolved_map()
                    }
                    &&& match opv {
                        ConsensusOpV::CollectionMeta { op } => ({
                            let out = apply_meta_op(
                                old(self).spec_storage_config(),
                                old(self).collections_map(),
                                old(self).aliases_map(),
                                op,
                            );
                            final(self).collections_map() == out.collections
                                && final(self).aliases_map() == out.aliases && result_matches(
                                r,
                                out.result,
                            ) && final(self).addrs() == old(self).addrs()
                                && final(self).peers_kv() == old(self).peers_kv()
                        }),
                        ConsensusOpV::AddPeer { peer_id, uri } => final(self).addrs()
                            == old(self).addrs().insert(peer_id, uri) && same_maps(
                            old(self),
                            final(self),
                        ) && r == Ok::<bool, StorageError>(true),
                    }
                }),
            },
    {
        let op = match decode_consensus_op(entry.data.as_slice()) {
            Some(op) => op,
            None => {
                return Err(
                    StorageError::ServiceError(
                        String::from_str("log entry payload failed to decode"),
                    ),
                );
            },
        };
        let was_pending = self.correlation.pending.remove(&entry.data).is_some();
        proof {
            assert(self.correlation.pending@ == old(self).correlation.pending@.remove(
                entry.data@,
            ));
            assert(forall|k: Seq<u8>|
                self.is_pending(k) <==> old(self).is_pending(k) && k != entry.data@);
            assert(was_pending == old(self).is_pending(entry.data@));
        }
        let key = vstd::slice::slice_to_vec(entry.data.as_slice());
        let result = match op {
            ConsensusOperations::CollectionMeta(m) => self.perform_collection_meta_op(m),
            ConsensusOperations::AddPeer(peer_id, uri) => {
                self.raft_state.insert_peer(peer_id, uri);
                Ok(true)
            },
        };
        if was_pending {
            self.correlation.resolved.insert(key, Outcome(clone_outcome(&result)));
        }
        result
    }

    /// Applies every committed-but-unapplied entry in index order. Normal
    /// entries are applied here (a failure inside one entry is recorded in
    /// its outcome and does not stall the loop); membership-change entries
    /// are returned, in order, for the consensus driver to apply. On
    /// return with success no unapplied entry remains.
    pub fn apply_entries(&mut self) -> (r: Result<Vec<ConsensusEntry>, RaftError>)
        requires
            old(self).wf(),
        ensures
            final(self).wf(),
            same_wal(old(self), final(self)),
            same_consensus(old(self), final(self)),
            same_config(old(self), final(self)),
            final(self).spec_hard_state() == old(self).spec_hard_state(),
            final(self).voters() == old(self).voters(),
            final(self).learners() == old(self).learners(),
            final(self).spec_this_peer_id() == old(self).spec_this_peer_id(),
            forall|k: Seq<u8>|
                #[trigger] final(self).is_pending(k) ==> old(self).is_pending(k),
            final(self).unapplied().0 == old(self).unapplied().0,
            final(self).unapplied().1 == old(self).unapplied().1,
            old(self).unapplied().2 <= final(self).unapplied().2,
            old(self).unapplied().2 > old(self).unapplied().1 || (1 <= old(self).unapplied().2
                && old(self).unapplied().1 <= old(self).wal_log().len()) ==> r is Ok,
            match r {
                Ok(v) => final(self).spec_current_unapplied() is None && (forall|i: int|
                    0 <= i < v@.len() ==> (#[trigger] v@[i]).entry_type == EntryKind::ConfChangeV2)
                    && ({
                    let st = apply_log_range(
                        old(self).spec_storage_config(),
                        (old(self).collections_map(), old(self).aliases_map(), old(self).addrs()),
                        old(self).wal_log(),
                        old(self).unapplied().2 as int,
                        old(self).unapplied().1 as int + 1,
                    );
                    final(self).collections_map() == st.0 && final(self).aliases_map() == st.1
                        && final(self).addrs() == st.2
                }),
                Err(e) => e is Unavailable && final(self).spec_current_unapplied() is Some && (
                final(self).unapplied().2 < 1 || old(self).wal_log().len()
                    < final(self).unapplied().2) && ({
                    let st = apply_log_range(
                        old(self).spec_storage_config(),
                        (old(self).collections_map(), old(self).aliases_map(), old(self).addrs()),
                        old(self).wal_log(),
                        old(self).unapplied().2 as int,
                        final(self).unapplied().2 as int,
                    );
                    final(self).collections_map() == st.0 && final(self).aliases_map() == st.1
                        && final(self).addrs() == st.2
                }),
            },
    {
        let ghost sc = self.spec_storage_config();
        let ghost st0 = (self.collections_map(), self.aliases_map(), self.addrs());
        let ghost log = self.wal_log();
        let ghost oc = self.unapplied().2 as int;
        let ghost last = self.unapplied().1 as int;
        let mut out: Vec<ConsensusEntry> = Vec::new();
        let mut cur = self.raft_state.current_unapplied_entry();
        while cur.is_some()
            invariant
                self.wf(),
                cur == self.spec_current_unapplied(),
                sc == old(self).spec_storage_config(),
                st0 == (old(self).collections_map(), old(self).aliases_map(), old(self).addrs()),
                log == old(self).wal_log(),
                oc == old(self).unapplied().2 as int,
                last == old(self).unapplied().1 as int,
                same_wal(old(self), self),
                same_consensus(old(self), self),
                same_config(old(self), self),
                self.spec_hard_state() == old(self).spec_hard_state(),
                self.voters() == old(self).voters(),
                self.learners() == old(self).learners(),
                self.spec_this_peer_id() == old(self).spec_this_peer_id(),
                self.unapplied().0 == old(self).unapplied().0,
                self.unapplied().1 == old(self).unapplied().1,
                oc <= self.unapplied().2 as int,
                self.unapplied().2 as int <= last + 1 || self.unapplied().2 as int == oc,
                (self.collections_map(), self.aliases_map(), self.addrs()) == apply_log_range(
                    sc,
                    st0,
                    log,
                    oc,
                    self.unapplied().2 as int,
                ),
                forall|k: Seq<u8>|
                    #[trigger] self.correlation.pending@.contains_key(k) ==> old(
                        self,
                    ).correlation.pending@.contains_key(k),
                forall|i: int|
                    0 <= i < out@.len() ==> (#[trigger] out@[i]).entry_type
                        == EntryKind::ConfChangeV2,
            decreases self.unapplied().1 + 1 - self.unapplied().2,
        {
            let idx = cur.unwrap();
            let ghost stm = (self.collections_map(), self.aliases_map(), self.addrs());
            let ghost pend_entry = self.correlation.pending@;
            let entry = match self.collection_wal_entry(idx) {
                Ok(e) => e,
                Err(e) => {
                    proof {
                        if 1 <= idx && idx <= self.wal_log().len() {
                            assert(decode_entry_full(self.wal_log()[idx - 1]) is Some);
                        }
                    }
                    return Err(e);
                },
            };
            if entry.data.len() > 0 {
                match entry.entry_type {
                    EntryKind::Normal => {
                        let _ = self.apply_normal_entry(&entry);
                        proof {
                            assert forall|k: Seq<u8>|
                                #[trigger] self.correlation.pending@.contains_key(
                                    k,
                                ) implies pend_entry.contains_key(k) by {
                                assert(self.is_pending(k)
                                    == self.correlation.pending@.contains_key(k));
                            }
                        }
                    },
                    EntryKind::ConfChangeV2 => {
                        out.push(entry);
                    },
                }
            }
            proof {
                lemma_apply_log_range_snoc(sc, st0, log, oc, idx as int);
                assert(decode_entry_full(log[idx - 1]) == Some(entry@));
                assert((self.collections_map(), self.aliases_map(), self.addrs())
                    == step_entry_state(sc, stm, entry@));
            }
            self.raft_state.entry_applied();
            cur = self.raft_state.current_unapplied_entry();
        }
        proof {
            if self.unapplied().2 as int == oc {
                assert(apply_log_range(sc, st0, log, oc, last + 1) == st0);
            }
            assert forall|k: Seq<u8>| #[trigger] self.is_pending(k) implies old(
                self,
            ).is_pending(k) by {
                assert(self.correlation.pending@.contains_key(k));
            }
        }
        Ok(out)
    }

    /// The snapshot view of the replicated state.
    pub open spec fn spec_meta_snapshot(&self) -> StateSnapshotV {
        StateSnapshotV {
            collections: collection_state_pairs(self.collections_kv()),
            aliases: self.aliases_kv(),
            address_by_id: self.peers_kv(),
        }
    }

    /// A point-in-time image of collections, aliases, and peer addresses.
    pub fn collection_meta_snapshot(&self) -> (r: StateSnapshot)
        requires
            self.wf(),
        ensures
            r@ == self.spec_meta_snapshot(),
    {
        let n = self.collections.len();
        let mut collections: Vec<(String, CollectionState)> = Vec::new();
        let mut i: usize = 0;
        while i < n
            invariant
                n == self.collections_kv().len(),
                self.wf(),
                i <= n,
                collections@.len() == i,
                forall|j: int|
                    0 <= j < i ==> (#[trigger] collections@[j]).0@ == self.collections_kv()[j].0
                        && collections@[j].1 == self.collections_kv()[j].1.spec_state(),
            decreases n - i,
        {
            let e = self.collections.entry_at(i);
            collections.push((e.0.clone(), e.1.state()));
            i = i + 1;
        }
        let aliases = self.aliases.state();
        let address_by_id = self.raft_state.peer_address_by_id();
        let r = StateSnapshot { collections, aliases, address_by_id };
        proof {
            assert(r@.collections =~= self.collections_kv().map_values(
                |p: (Seq<char>, Collection)| (p.0, p.1.spec_state()),
            ));
        }
        r
    }
}

} // verus!

verus! {

/// A copy of the persistent raft state handed to the consensus engine.
#[derive(Debug)]
pub struct RaftStateInfo {
    pub hard_state: HardState,
    pub voters: Vec<u64>,
    pub learners: Vec<u64>,
}

/// A raft snapshot: the encoded state image and its metadata.
#[derive(Debug)]
pub struct RaftSnapshotData {
    pub data: Vec<u8>,
    pub conf_voters: Vec<u64>,
    pub conf_learners: Vec<u64>,
    pub index: u64,
    pub term: u64,
}

/// Whether some snapshot pair carries the name.
fn pairs_contain(pairs: &Vec<(String, CollectionState)>, name: &String) -> (r: bool)
    ensures
        r == snap_has_name(
            pairs@.map_values(|e: (String, CollectionState)| (e.0@, e.1)),
            name@,
        ),
{
    let ghost s = pairs@.map_values(|e: (String, CollectionState)| (e.0@, e.1));
    let n = pairs.len();
    let mut i: usize = 0;
    while i < n
        invariant
            n == pairs@.len(),
            s == pairs@.map_values(|e: (String, CollectionState)| (e.0@, e.1)),
            i <= n,
            forall|j: int| 0 <= j < i ==> (#[trigger] s[j]).0 != name@,
        decreases n - i,
    {
        if pairs[i].0 == *name {
            proof {
                assert((s[i as int]).0 == name@);
            }
            return true;
        }
        i = i + 1;
    }
    false
}

impl TableOfContent {
    /// The persistent raft state the consensus engine starts from.
    pub fn initial_state(&self) -> (r: Result<RaftStateInfo, RaftError>)
        ensures
            r matches Ok(info) && info.hard_state == self.spec_hard_state() && info.voters@
                == self.voters() && info.learners@ == self.learners(),
    {
        let conf = self.raft_state.conf_state();
        Ok(
            RaftStateInfo {
                hard_state: self.raft_state.hard_state(),
                voters: vstd::slice::slice_to_vec(conf.voters.as_slice()),
                learners: vstd::slice::slice_to_vec(conf.learners.as_slice()),
            },
        )
    }

    /// Produces the raft snapshot for a requested index: the encoded state
    /// image with the current commit and term, or a temporary failure when
    /// the commit index has not reached the request yet.
    pub fn snapshot(&self, request_index: u64) -> (r: Result<RaftSnapshotData, RaftError>)
        requires
            self.wf(),
        ensures
            match r {
                Ok(sd) => self.spec_hard_state().commit >= request_index && sd.index
                    == self.spec_hard_state().commit && sd.term == self.spec_hard_state().term
                    && sd.conf_voters@ == self.voters() && sd.conf_learners@ == self.learners()
                    && decode_snapshot_full(sd.data@) == Some(self.spec_meta_snapshot()),
                Err(e) => self.spec_hard_state().commit < request_index && e
                    is SnapshotTemporarilyUnavailable,
            },
    {
        let snap = self.collection_meta_snapshot();
        let hs = self.raft_state.hard_state();
        if hs.commit >= request_index {
            let data = encode_snapshot(&snap);
            proof {
                law_snapshot_round_trip(snap@);
            }
            let conf = self.raft_state.conf_state();
            Ok(
                RaftSnapshotData {
                    data,
                    conf_voters: vstd::slice::slice_to_vec(conf.voters.as_slice()),
                    conf_learners: vstd::slice::slice_to_vec(conf.learners.as_slice()),
                    index: hs.commit,
                    term: hs.term,
                },
            )
        } else {
            Err(RaftError::SnapshotTemporarilyUnavailable)
        }
    }

    /// Applies a decoded state snapshot: peer addresses, then collections
    /// (create missing ones, update differing ones, delete the rest), then
    /// the alias mapping.
    pub fn apply_state_snapshot(&mut self, snapshot: &StateSnapshot) -> (r: Result<
        (),
        StorageError,
    >)
        requires
            old(self).wf(),
        ensures
            final(self).wf(),
            same_wal(old(self), final(self)),
            same_consensus(old(self), final(self)),
            same_correlation(old(self), final(self)),
            same_config(old(self), final(self)),
            final(self).spec_hard_state() == old(self).spec_hard_state(),
            final(self).voters() == old(self).voters(),
            final(self).learners() == old(self).learners(),
            final(self).spec_this_peer_id() == old(self).spec_this_peer_id(),
            final(self).unapplied() == old(self).unapplied(),
            final(self).addrs() == assoc_map(snapshot@.address_by_id),
            final(self).collections_map() == snap_collections_map(snapshot@.collections),
            final(self).aliases_map() == assoc_map(snapshot@.aliases),
            r is Ok,
    {
        self.raft_state.set_peer_address_by_id(&snapshot.address_by_id);
        let ghost cmap0 = self.collections_map();
        let ghost sv = snapshot@.collections;
        let n = snapshot.collections.len();
        let mut i: usize = 0;
        proof {
            assert(sv.take(0) =~= Seq::<(Seq<char>, CollectionState)>::empty());
        }
        while i < n
            invariant
                old(self).wf(),
                self.wf(),
                n == sv.len(),
                sv == snapshot@.collections,
                i <= n,
                cmap0 == old(self).collections_map(),
                self.collections_map() == insert_state_pairs(cmap0, sv.take(i as int)),
                self.aliases_map() == old(self).aliases_map(),
                same_wal(old(self), self),
                same_consensus(old(self), self),
                same_correlation(old(self), self),
                same_config(old(self), self),
                self.spec_hard_state() == old(self).spec_hard_state(),
                self.voters() == old(self).voters(),
                self.learners() == old(self).learners(),
                self.spec_this_peer_id() == old(self).spec_this_peer_id(),
                self.unapplied() == old(self).unapplied(),
                self.addrs() == assoc_map(snapshot@.address_by_id),
            decreases n - i,
        {
            let name = &snapshot.collections[i].0;
            let st = &snapshot.collections[i].1;
            let need_insert = match self.collections.get(name) {
                Some(c) => {
                    let cs = c.state();
                    !(cs == *st)
                },
                None => true,
            };
            if need_insert {
                self.collections.insert(name.clone(), Collection { config: st.config });
            } else {
                proof {
                    assert(self.collections_map().insert(name@, Collection { config: st.config })
                        =~= self.collections_map());
                }
            }
            proof {
                assert(sv.take(i as int + 1).drop_last() =~= sv.take(i as int));
                assert(sv.take(i as int + 1).last() == sv[i as int]);
                assert(sv[i as int] == (name@, *st));
            }
            i = i + 1;
        }
        proof {
            assert(sv.take(n as int) =~= sv);
        }
        let names = self.collections.keys();
        let ghost m1 = self.collections_map();
        let ghost kv1 = self.collections.kv_seq();
        proof {
            self.collections.lemma_view_entries();
            assert forall|k: Seq<char>| #[trigger] m1.contains_key(k) implies exists|l: int|
                0 <= l < names@.len() && #[trigger] names@[l]@ == k by {
                let i = choose|i: int| 0 <= i < kv1.len() && #[trigger] kv1[i].0 == k;
                assert(names@[i]@ == k);
            }
        }
        let total = names.len();
        let mut j: usize = 0;
        while j < total
            invariant
                old(self).wf(),
                self.wf(),
                sv == snapshot@.collections,
                total == names@.len(),
                names@.len() == kv1.len(),
                forall|l: int| 0 <= l < names@.len() ==> #[trigger] names@[l]@ == kv1[l].0,
                forall|a: int, b: int|
                    0 <= a < b < kv1.len() ==> (#[trigger] kv1[a]).0 != (#[trigger] kv1[b]).0,
                forall|k: Seq<char>|
                    #[trigger] m1.contains_key(k) ==> exists|l: int|
                        0 <= l < kv1.len() && #[trigger] kv1[l].0 == k,
                j <= total,
                forall|k: Seq<char>|
                    #[trigger] self.collections_map().contains_key(k) <==> m1.contains_key(k) && (
                    snap_has_name(sv, k) || exists|l: int|
                        j <= l < names@.len() && #[trigger] names@[l]@ == k),
                forall|k: Seq<char>|
                    #[trigger] self.collections_map().contains_key(k)
                        ==> self.collections_map()[k] == m1[k],
                self.aliases_map() == old(self).aliases_map(),
                same_wal(old(self), self),
                same_consensus(old(self), self),
                same_correlation(old(self), self),
                same_config(old(self), self),
                self.spec_hard_state() == old(self).spec_hard_state(),
                self.voters() == old(self).voters(),
                self.learners() == old(self).learners(),
                self.spec_this_peer_id() == old(self).spec_this_peer_id(),
                self.unapplied() == old(self).unapplied(),
                self.addrs() == assoc_map(snapshot@.address_by_id),
            decreases total - j,
        {
            let keep = pairs_contain(&snapshot.collections, &names[j]);
            if !keep {
                let ghost pre = self.collections_map();
                let _ = self.collections.remove(&names[j]);
                proof {
                    assert forall|k: Seq<char>|
                        #[trigger] self.collections_map().contains_key(k) <==> m1.contains_key(k)
                            && (snap_has_name(sv, k) || exists|l: int|
                            j + 1 <= l < names@.len() && #[trigger] names@[l]@ == k) by {
                        if k == names@[j as int]@ {
                            assert(!self.collections_map().contains_key(k));
                            if exists|l: int|
                                j + 1 <= l < names@.len() && #[trigger] names@[l]@ == k {
                                let l = choose|l: int|
                                    j + 1 <= l < names@.len() && #[trigger] names@[l]@ == k;
                                assert(kv1[l].0 == kv1[j as int].0);
                                assert(false);
                            }
                        } else {
                            if exists|l: int| j <= l < names@.len() && #[trigger] names@[l]@ == k {
                                let l = choose|l: int|
                                    j <= l < names@.len() && #[trigger] names@[l]@ == k;
                                assert(l != j);
                            }
                        }
                    }
                }
            } else {
                proof {
                    assert forall|k: Seq<char>|
                        #[trigger] self.collections_map().contains_key(k) <==> m1.contains_key(k)
                            && (snap_has_name(sv, k) || exists|l: int|
                            j + 1 <= l < names@.len() && #[trigger] names@[l]@ == k) by {
                        if k == names@[j as int]@ {
                            assert(snap_has_name(sv, k));
                            assert(m1.contains_key(k) ==> self.collections_map().contains_key(k));
                        } else {
                            if exists|l: int| j <= l < names@.len() && #[trigger] names@[l]@ == k {
                                let l = choose|l: int|
                                    j <= l < names@.len() && #[trigger] names@[l]@ == k;
                                assert(l != j);
                            }
                        }
                    }
                }
            }
            j = j + 1;
        }
        proof {
            lemma_insert_pairs_assoc(cmap0, sv);
            assert forall|k: Seq<char>|
                #[trigger] self.collections_map().contains_key(k) <==> snap_collections_map(
                    sv,
                ).contains_key(k) by {}
            assert forall|k: Seq<char>|
                #[trigger] self.collections_map().contains_key(k)
                    implies self.collections_map()[k] == snap_collections_map(sv)[k] by {}
            assert(self.collections_map() =~= snap_collections_map(sv));
        }
        let _ = self.aliases.apply_state(&snapshot.aliases);
        Ok(())
    }

    /// Applies a raft snapshot from its encoded payload.
    pub fn apply_snapshot(&mut self, data: &[u8]) -> (r: Result<(), StorageError>)
        requires
            old(self).wf(),
        ensures
            final(self).wf(),
            same_wal(old(self), final(self)),
            same_consensus(old(self), final(self)),
            same_correlation(old(self), final(self)),
            same_config(old(self), final(self)),
            final(self).spec_hard_state() == old(self).spec_hard_state(),
            final(self).voters() == old(self).voters(),
            final(self).learners() == old(self).learners(),
            final(self).spec_this_peer_id() == old(self).spec_this_peer_id(),
            final(self).unapplied() == old(self).unapplied(),
            match decode_snapshot_full(data@) {
                Some(sv) => r is Ok && final(self).addrs() == assoc_map(sv.address_by_id)
                    && final(self).collections_map() == snap_collections_map(sv.collections)
                    && final(self).aliases_map() == assoc_map(sv.aliases),
                None => (r matches Err(e) && e is ServiceError) && same_maps(
                    old(self),
                    final(self),
                ) && final(self).addrs() == old(self).addrs(),
            },
    {
        let snap = match decode_snapshot(data) {
            Some(s) => s,
            None => {
                return Err(
                    StorageError::ServiceError(
                        String::from_str("snapshot payload failed to decode"),
                    ),
                );
            },
        };
        self.apply_state_snapshot(&snap)
    }
}

} // verus!

verus! {

// ------------------------------------------------------------------
// Laws of the replicated state.
// ------------------------------------------------------------------

/// No name denotes both a collection and an alias.
pub open spec fn names_disjoint(
    cmap: Map<Seq<char>, Collection>,
    amap: Map<Seq<char>, Seq<char>>,
) -> bool {
    forall|k: Seq<char>| !(#[trigger] cmap.contains_key(k) && #[trigger] amap.contains_key(k))
}

/// Every alias points at an existing collection.
pub open spec fn aliases_consistent(
    cmap: Map<Seq<char>, Collection>,
    amap: Map<Seq<char>, Seq<char>>,
) -> bool {
    forall|a: Seq<char>| #[trigger] amap.contains_key(a) ==> cmap.contains_key(amap[a])
}

proof fn lemma_alias_actions_disjoint(
    cmap: Map<Seq<char>, Collection>,
    amap: Map<Seq<char>, Seq<char>>,
    actions: Seq<AliasOperationsV>,
)
    requires
        names_disjoint(cmap, amap),
    ensures
        names_disjoint(cmap, apply_alias_actions(cmap, amap, actions).0),
    decreases actions.len(),
{
    if actions.len() > 0 {
        match actions[0] {
            AliasOperationsV::CreateAlias { collection_name, alias_name } => {
                if cmap.contains_key(collection_name) && !cmap.contains_key(alias_name) {
                    lemma_alias_actions_disjoint(
                        cmap,
                        amap.insert(alias_name, collection_name),
                        actions.skip(1),
                    );
                }
            },
            AliasOperationsV::DeleteAlias { alias_name } => {
                lemma_alias_actions_disjoint(cmap, amap.remove(alias_name), actions.skip(1));
            },
            AliasOperationsV::RenameAlias { old_alias_name, new_alias_name } => {
                if amap.contains_key(old_alias_name) && !cmap.contains_key(new_alias_name) {
                    lemma_alias_actions_disjoint(
                        cmap,
                        amap.remove(old_alias_name).insert(new_alias_name, amap[old_alias_name]),
                        actions.skip(1),
                    );
                }
            },
        }
    }
}

/// Law: a name appears in the registry or in the alias store, never in
/// both, after any metadata operation that starts from such a state.
pub proof fn law_registry_alias_exclusive(
    sc: StorageConfig,
    cmap: Map<Seq<char>, Collection>,
    amap: Map<Seq<char>, Seq<char>>,
    op: MetaOpV,
)
    requires
        names_disjoint(cmap, amap),
    ensures
        ({
            let out = apply_meta_op(sc, cmap, amap, op);
            names_disjoint(out.collections, out.aliases)
        }),
{
    match op {
        MetaOpV::CreateCollection { .. } => {},
        MetaOpV::UpdateCollection { .. } => {},
        MetaOpV::DeleteCollection { .. } => {},
        MetaOpV::ChangeAliases { actions } => {
            lemma_alias_actions_disjoint(cmap, amap, actions);
        },
    }
}

proof fn lemma_alias_actions_consistent(
    cmap: Map<Seq<char>, Collection>,
    amap: Map<Seq<char>, Seq<char>>,
    actions: Seq<AliasOperationsV>,
)
    requires
        aliases_consistent(cmap, amap),
    ensures
        aliases_consistent(cmap, apply_alias_actions(cmap, amap, actions).0),
    decreases actions.len(),
{
    if actions.len() > 0 {
        match actions[0] {
            AliasOperationsV::CreateAlias { collection_name, alias_name } => {
                if cmap.contains_key(collection_name) && !cmap.contains_key(alias_name) {
                    lemma_alias_actions_consistent(
                        cmap,
                        amap.insert(alias_name, collection_name),
                        actions.skip(1),
                    );
                }
            },
            AliasOperationsV::DeleteAlias { alias_name } => {
                lemma_alias_actions_consistent(cmap, amap.remove(alias_name), actions.skip(1));
            },
            AliasOperationsV::RenameAlias { old_alias_name, new_alias_name } => {
                if amap.contains_key(old_alias_name) && !cmap.contains_key(new_alias_name) {
                    lemma_alias_actions_consistent(
                        cmap,
                        amap.remove(old_alias_name).insert(new_alias_name, amap[old_alias_name]),
                        actions.skip(1),
                    );
                }
            },
        }
    }
}

/// Law: after any committed metadata operation every alias still points
/// at an existing collection. Deleting a collection unbinds its aliases.
pub proof fn law_alias_targets_exist(
    sc: StorageConfig,
    cmap: Map<Seq<char>, Collection>,
    amap: Map<Seq<char>, Seq<char>>,
    op: MetaOpV,
)
    requires
        aliases_consistent(cmap, amap),
    ensures
        ({
            let out = apply_meta_op(sc, cmap, amap, op);
            aliases_consistent(out.collections, out.aliases)
        }),
{
    match op {
        MetaOpV::CreateCollection { .. } => {},
        MetaOpV::UpdateCollection { .. } => {},
        MetaOpV::DeleteCollection { collection_name } => {
            if cmap.contains_key(collection_name) {
                let amap2 = without_target(amap, collection_name);
                assert forall|a: Seq<char>| #[trigger] amap2.contains_key(a) implies cmap.remove(
                    collection_name,
                ).contains_key(amap2[a]) by {
                    assert(amap.contains_key(a) && amap[a] != collection_name);
                }
            }
        },
        MetaOpV::ChangeAliases { actions } => {
            lemma_alias_actions_consistent(cmap, amap, actions);
        },
    }
}

/// Law: a successfully committed create is observable — resolving the new
/// collection's name afterwards yields that name.
pub proof fn law_created_collection_resolves(
    sc: StorageConfig,
    cmap: Map<Seq<char>, Collection>,
    amap: Map<Seq<char>, Seq<char>>,
    name: Seq<char>,
    cc: CreateCollection,
)
    requires
        apply_meta_op(
            sc,
            cmap,
            amap,
            MetaOpV::CreateCollection { collection_name: name, create_collection: cc },
        ).result == Ok::<bool, MetaErr>(true),
    ensures
        ({
            let out = apply_meta_op(
                sc,
                cmap,
                amap,
                MetaOpV::CreateCollection { collection_name: name, create_collection: cc },
            );
            resolved_name(out.collections, out.aliases, name) == Some(name)
        }),
{
}

/// Law: a successfully committed alias creation is observable — resolving
/// the alias afterwards yields the collection it was bound to.
pub proof fn law_created_alias_resolves(
    cmap: Map<Seq<char>, Collection>,
    amap: Map<Seq<char>, Seq<char>>,
    collection_name: Seq<char>,
    alias_name: Seq<char>,
)
    requires
        cmap.contains_key(collection_name),
        !cmap.contains_key(alias_name),
    ensures
        ({
            let out = apply_alias_actions(
                cmap,
                amap,
                seq![AliasOperationsV::CreateAlias { collection_name, alias_name }],
            );
            out.1 is None && resolved_name(cmap, out.0, alias_name) == Some(collection_name)
        }),
{
    let actions = seq![AliasOperationsV::CreateAlias { collection_name, alias_name }];
    assert(actions.skip(1) =~= Seq::<AliasOperationsV>::empty());
    let amap2 = amap.insert(alias_name, collection_name);
    assert(actions[0] == AliasOperationsV::CreateAlias { collection_name, alias_name });
    assert(apply_alias_actions(cmap, amap2, Seq::<AliasOperationsV>::empty()) == (
        amap2,
        None::<MetaErr>,
    ));
    assert(apply_alias_actions(cmap, amap, actions) == (amap2, None::<MetaErr>));
    assert(amap2.contains_key(alias_name) && amap2[alias_name] == collection_name);
}

proof fn lemma_snap_map_of_states(s: Seq<(Seq<char>, Collection)>)
    ensures
        snap_collections_map(collection_state_pairs(s)) == assoc_map(s),
    decreases s.len(),
{
    if s.len() == 0 {
        assert(collection_state_pairs(s) =~= Seq::<(Seq<char>, CollectionState)>::empty());
    } else {
        lemma_snap_map_of_states(s.drop_last());
        assert(collection_state_pairs(s).drop_last() =~= collection_state_pairs(s.drop_last()));
        assert(collection_state_pairs(s).last() == (s.last().0, s.last().1.spec_state()));
        assert(Collection { config: s.last().1.spec_state().config } == s.last().1);
        assert(snap_collections_map(collection_state_pairs(s)) =~= assoc_map(s));
    }
}

/// Law: applying the snapshot a coordinator builds of itself restores
/// exactly its collections, aliases, and peer addresses.
pub proof fn law_snapshot_apply_round_trip(t: &TableOfContent)
    requires
        t.wf(),
    ensures
        snap_collections_map(t.spec_meta_snapshot().collections) == t.collections_map(),
        assoc_map(t.spec_meta_snapshot().aliases) == t.aliases_map(),
        assoc_map(t.spec_meta_snapshot().address_by_id) == t.addrs(),
{
    lemma_snap_map_of_states(t.collections_kv());
    t.lemma_views_assoc();
}

impl TableOfContent {
    /// The registry, alias store, and peer map are the meanings of their
    /// stored entries.
    pub proof fn lemma_views_assoc(&self)
        ensures
            self.collections_map() == assoc_map(self.collections_kv()),
            self.aliases_map() == assoc_map(self.aliases_kv()),
            self.addrs() == assoc_map(self.peers_kv()),
    {
        self.collections.lemma_view_assoc();
        self.aliases.lemma_view_assoc();
        self.raft_state.lemma_addrs_peers_kv();
    }

    /// Relates the abstract maps to the stored entry sequences of a
    /// well-formed coordinator: one entry per key, pairwise-distinct keys,
    /// values matching the maps. This is the bridge that makes the
    /// sequence-valued contracts (`all_collections`, `collection_aliases`,
    /// `peer_address_by_id`, the snapshot view) exact descriptions of the
    /// abstract maps.
    pub proof fn lemma_view_entries(&self)
        requires
            self.wf(),
        ensures
            self.collections_map().dom().finite(),
            self.collections_map().len() == self.collections_kv().len(),
            forall|i: int|
                0 <= i < self.collections_kv().len() ==> self.collections_map().contains_key(
                    (#[trigger] self.collections_kv()[i]).0,
                ) && self.collections_map()[self.collections_kv()[i].0]
                    == self.collections_kv()[i].1,
            forall|k: Seq<char>|
                #[trigger] self.collections_map().contains_key(k) ==> exists|i: int|
                    0 <= i < self.collections_kv().len() && (
                    #[trigger] self.collections_kv()[i]).0 == k,
            forall|i: int, j: int|
                0 <= i < j < self.collections_kv().len() ==> (
                #[trigger] self.collections_kv()[i]).0 != (#[trigger] self.collections_kv()[j]).0,
            self.aliases_map().dom().finite(),
            self.aliases_map().len() == self.aliases_kv().len(),
            forall|i: int|
                0 <= i < self.aliases_kv().len() ==> self.aliases_map().contains_key(
                    (#[trigger] self.aliases_kv()[i]).0,
                ) && self.aliases_map()[self.aliases_kv()[i].0] == self.aliases_kv()[i].1,
            forall|k: Seq<char>|
                #[trigger] self.aliases_map().contains_key(k) ==> exists|i: int|
                    0 <= i < self.aliases_kv().len() && (#[trigger] self.aliases_kv()[i]).0 == k,
            forall|i: int, j: int|
                0 <= i < j < self.aliases_kv().len() ==> (#[trigger] self.aliases_kv()[i]).0 != (
                #[trigger] self.aliases_kv()[j]).0,
            self.addrs().dom().finite(),
            self.addrs().len() == self.peers_kv().len(),
            forall|i: int|
                0 <= i < self.peers_kv().len() ==> self.addrs().contains_key(
                    (#[trigger] self.peers_kv()[i]).0,
                ) && self.addrs()[self.peers_kv()[i].0] == self.peers_kv()[i].1,
            forall|k: u64|
                #[trigger] self.addrs().contains_key(k) ==> exists|i: int|
                    0 <= i < self.peers_kv().len() && (#[trigger] self.peers_kv()[i]).0 == k,
            forall|i: int, j: int|
                0 <= i < j < self.peers_kv().len() ==> (#[trigger] self.peers_kv()[i]).0 != (
                #[trigger] self.peers_kv()[j]).0,
    {
        self.collections.lemma_view_entries();
        assert forall|k: Seq<char>| #[trigger] self.collections_map().contains_key(
            k,
        ) implies exists|i: int|
            0 <= i < self.collections_kv().len() && (#[trigger] self.collections_kv()[i]).0
                == k by {
            let i = choose|i: int|
                0 <= i < self.collections.kv_seq().len() && #[trigger] self.collections.kv_seq(
                )[i].0 == k;
            assert((self.collections_kv()[i]).0 == k);
        }
        self.aliases.lemma_view_entries();
        self.raft_state.lemma_peer_entries();
    }
}

} // verus!

verus! {

/// Law: live entries of the metadata log are strictly ordered by their
/// carried index, and each one's index is its stored position plus one.
pub proof fn law_wal_indices_sequential(t: &TableOfContent, i: int, j: int)
    requires
        t.wf(),
        0 <= i < j < t.wal_log().len(),
    ensures
        decode_entry_full(t.wal_log()[i]) matches Some(ei) && ei.index == i + 1,
        decode_entry_full(t.wal_log()[j]) matches Some(ej) && ej.index == j + 1,
        ({
            let ei = decode_entry_full(t.wal_log()[i]);
            let ej = decode_entry_full(t.wal_log()[j]);
            ei is Some && ej is Some && ei->0.index < ej->0.index
        }),
{
    t.lemma_wal_ordered();
}

impl TableOfContent {
    /// A well-formed coordinator's log is ordered.
    pub proof fn lemma_wal_ordered(&self)
        requires
            self.wf(),
        ensures
            wal_ordered(self.wal_log()),
    {
    }
}

} // verus!

verus! {

/// One committed entry's effect on the replicated maps: empty entries,
/// membership changes, and undecodable payloads leave them unchanged;
/// a normal entry applies its metadata operation or peer address.
pub open spec fn step_entry_state(
    sc: StorageConfig,
    st: (Map<Seq<char>, Collection>, Map<Seq<char>, Seq<char>>, Map<u64, Seq<char>>),
    ev: ConsensusEntryV,
) -> (Map<Seq<char>, Collection>, Map<Seq<char>, Seq<char>>, Map<u64, Seq<char>>) {
    if ev.data.len() == 0 {
        st
    } else {
        match ev.entry_type {
            EntryKind::ConfChangeV2 => st,
            EntryKind::Normal => match decode_op_full(ev.data) {
                None => st,
                Some(opv) => match opv {
                    ConsensusOpV::CollectionMeta { op } => {
                        let out = apply_meta_op(sc, st.0, st.1, op);
                        (out.collections, out.aliases, st.2)
                    },
                    ConsensusOpV::AddPeer { peer_id, uri } => (
                        st.0,
                        st.1,
                        st.2.insert(peer_id, uri),
                    ),
                },
            },
        }
    }
}

/// Effect of applying the entries at one-based log positions
/// `from..to`, in order.
pub open spec fn apply_log_range(
    sc: StorageConfig,
    st: (Map<Seq<char>, Collection>, Map<Seq<char>, Seq<char>>, Map<u64, Seq<char>>),
    log: Seq<Seq<u8>>,
    from: int,
    to: int,
) -> (Map<Seq<char>, Collection>, Map<Seq<char>, Seq<char>>, Map<u64, Seq<char>>)
    decreases to - from,
{
    if from >= to {
        st
    } else {
        let st1 = match decode_entry_full(log[from - 1]) {
            Some(ev) => step_entry_state(sc, st, ev),
            None => st,
        };
        apply_log_range(sc, st1, log, from + 1, to)
    }
}

proof fn lemma_apply_log_range_snoc(
    sc: StorageConfig,
    st: (Map<Seq<char>, Collection>, Map<Seq<char>, Seq<char>>, Map<u64, Seq<char>>),
    log: Seq<Seq<u8>>,
    from: int,
    mid: int,
)
    requires
        from <= mid,
    ensures
        apply_log_range(sc, st, log, from, mid + 1) == ({
            let stm = apply_log_range(sc, st, log, from, mid);
            match decode_entry_full(log[mid - 1]) {
                Some(ev) => step_entry_state(sc, stm, ev),
                None => stm,
            }
        }),
    decreases mid - from,
{
    let st1 = match decode_entry_full(log[from - 1]) {
        Some(ev) => step_entry_state(sc, st, ev),
        None => st,
    };
    if from < mid {
        lemma_apply_log_range_snoc(sc, st1, log, from + 1, mid);
    } else {
        assert(apply_log_range(sc, st, log, from, mid) == st);
        assert(apply_log_range(sc, st1, log, from + 1, mid + 1) == st1);
    }
}

} // verus!
