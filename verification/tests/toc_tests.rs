use meta_toc::errors::StorageError;
use meta_toc::ops::AliasOperations;
use meta_toc::ops::ChangeAliasesOperation;
use meta_toc::ops::CollectionMetaOperations;
use meta_toc::ops::ConsensusEntry;
use meta_toc::ops::ConsensusOperations;
use meta_toc::ops::CreateCollection;
use meta_toc::ops::CreateCollectionOperation;
use meta_toc::ops::DeleteCollectionOperation;
use meta_toc::ops::Distance;
use meta_toc::ops::EntryKind;
use meta_toc::ops::HnswConfig;
use meta_toc::ops::OptimizersConfig;
use meta_toc::ops::OptimizersConfigDiff;
use meta_toc::ops::StorageConfig;
use meta_toc::ops::UpdateCollection;
use meta_toc::ops::UpdateCollectionOperation;
use meta_toc::ops::WalConfig;
use meta_toc::toc::ConsensusEnabled;
use meta_toc::toc::TableOfContent;

fn storage_config() -> StorageConfig {
    StorageConfig {
        storage_path: String::from("storage"),
        wal: WalConfig { wal_capacity_mb: 32, wal_segments_ahead: 0 },
        optimizers: OptimizersConfig {
            deleted_threshold_ppm: 900_000,
            vacuum_min_vector_number: 1000,
            default_segment_number: 5,
            max_segment_size: 100_000,
            memmap_threshold: 50_000,
            indexing_threshold: 20_000,
            payload_indexing_threshold: 10_000,
            flush_interval_sec: 30,
            max_optimization_threads: 2,
        },
        hnsw_index: HnswConfig { m: 16, ef_construct: 100, full_scan_threshold: 10_000 },
    }
}

fn create_op(name: &str) -> CollectionMetaOperations {
    CollectionMetaOperations::CreateCollection(CreateCollectionOperation {
        collection_name: String::from(name),
        create_collection: CreateCollection {
            vector_size: 4,
            distance: Distance::Cosine,
            shard_number: 1,
            hnsw_config: None,
            wal_config: None,
            optimizers_config: None,
        },
    })
}

fn local_toc() -> TableOfContent {
    TableOfContent::new(storage_config(), None, 1)
}

#[test]
fn test_single_peer_create_get_delete() {
    let mut toc = local_toc();
    let r = toc.submit_collection_operation(create_op("c1"), None);
    assert_eq!(r.unwrap(), true);
    let names = toc.all_collections();
    assert_eq!(names.len(), 1);
    assert_eq!(names[0], "c1");
    assert!(toc.get_collection(&String::from("c1")).is_ok());
    let r = toc.submit_collection_operation(
        CollectionMetaOperations::DeleteCollection(DeleteCollectionOperation(String::from("c1"))),
        None,
    );
    assert_eq!(r.unwrap(), true);
    assert!(toc.all_collections().is_empty());
    assert!(matches!(
        toc.get_collection(&String::from("c1")),
        Err(StorageError::CollectionNotFound(_))
    ));
}

#[test]
fn test_delete_absent_collection_returns_false() {
    let mut toc = local_toc();
    let r = toc.submit_collection_operation(
        CollectionMetaOperations::DeleteCollection(DeleteCollectionOperation(String::from("nope"))),
        None,
    );
    assert_eq!(r.unwrap(), false);
}

#[test]
fn test_create_zero_shards_rejected() {
    let mut toc = local_toc();
    let op = CollectionMetaOperations::CreateCollection(CreateCollectionOperation {
        collection_name: String::from("c1"),
        create_collection: CreateCollection {
            vector_size: 4,
            distance: Distance::Cosine,
            shard_number: 0,
            hnsw_config: None,
            wal_config: None,
            optimizers_config: None,
        },
    });
    assert!(matches!(
        toc.submit_collection_operation(op, None),
        Err(StorageError::BadInput(_))
    ));
    assert!(toc.all_collections().is_empty());
}

#[test]
fn test_duplicate_create_rejected() {
    let mut toc = local_toc();
    toc.submit_collection_operation(create_op("c1"), None).unwrap();
    assert!(matches!(
        toc.submit_collection_operation(create_op("c1"), None),
        Err(StorageError::CollectionAlreadyExists(_))
    ));
}

#[test]
fn test_alias_atomicity() {
    let mut toc = local_toc();
    toc.submit_collection_operation(create_op("c1"), None).unwrap();
    let op = CollectionMetaOperations::ChangeAliases(ChangeAliasesOperation {
        actions: vec![
            AliasOperations::CreateAlias {
                collection_name: String::from("c1"),
                alias_name: String::from("a1"),
            },
            AliasOperations::CreateAlias {
                collection_name: String::from("c1"),
                alias_name: String::from("a2"),
            },
        ],
    });
    assert_eq!(toc.submit_collection_operation(op, None).unwrap(), true);
    let aliases = toc.collection_aliases(&String::from("c1")).unwrap();
    assert_eq!(aliases.len(), 2);
    assert!(aliases.contains(&String::from("a1")));
    assert!(aliases.contains(&String::from("a2")));
    assert_eq!(toc.resolve(&String::from("a1")).unwrap(), "c1");
}

#[test]
fn test_alias_collision_with_collection_name() {
    let mut toc = local_toc();
    toc.submit_collection_operation(create_op("c1"), None).unwrap();
    let op = CollectionMetaOperations::ChangeAliases(ChangeAliasesOperation {
        actions: vec![AliasOperations::CreateAlias {
            collection_name: String::from("c1"),
            alias_name: String::from("c1"),
        }],
    });
    assert!(matches!(
        toc.submit_collection_operation(op, None),
        Err(StorageError::CollectionAlreadyExists(_))
    ));
}

#[test]
fn test_alias_delete_and_rename() {
    let mut toc = local_toc();
    toc.submit_collection_operation(create_op("c1"), None).unwrap();
    let op = CollectionMetaOperations::ChangeAliases(ChangeAliasesOperation {
        actions: vec![
            AliasOperations::CreateAlias {
                collection_name: String::from("c1"),
                alias_name: String::from("a1"),
            },
            AliasOperations::RenameAlias {
                old_alias_name: String::from("a1"),
                new_alias_name: String::from("a2"),
            },
            AliasOperations::DeleteAlias { alias_name: String::from("missing") },
        ],
    });
    assert_eq!(toc.submit_collection_operation(op, None).unwrap(), true);
    assert!(matches!(
        toc.resolve(&String::from("a1")),
        Err(StorageError::CollectionNotFound(_))
    ));
    assert_eq!(toc.resolve(&String::from("a2")).unwrap(), "c1");
    let rename_missing = CollectionMetaOperations::ChangeAliases(ChangeAliasesOperation {
        actions: vec![AliasOperations::RenameAlias {
            old_alias_name: String::from("ghost"),
            new_alias_name: String::from("a3"),
        }],
    });
    assert!(matches!(
        toc.submit_collection_operation(rename_missing, None),
        Err(StorageError::AliasNotFound(_))
    ));
}

#[test]
fn test_alias_create_to_missing_collection() {
    let mut toc = local_toc();
    let op = CollectionMetaOperations::ChangeAliases(ChangeAliasesOperation {
        actions: vec![AliasOperations::CreateAlias {
            collection_name: String::from("ghost"),
            alias_name: String::from("a1"),
        }],
    });
    assert!(matches!(
        toc.submit_collection_operation(op, None),
        Err(StorageError::CollectionNotFound(_))
    ));
}

#[test]
fn test_update_collection_optimizers() {
    let mut toc = local_toc();
    toc.submit_collection_operation(create_op("c1"), None).unwrap();
    let op = CollectionMetaOperations::UpdateCollection(UpdateCollectionOperation {
        collection_name: String::from("c1"),
        update_collection: UpdateCollection {
            optimizers_config: Some(OptimizersConfigDiff {
                deleted_threshold_ppm: None,
                vacuum_min_vector_number: None,
                default_segment_number: Some(9),
                max_segment_size: None,
                memmap_threshold: None,
                indexing_threshold: Some(77),
                payload_indexing_threshold: None,
                flush_interval_sec: None,
                max_optimization_threads: None,
            }),
        },
    });
    assert_eq!(toc.submit_collection_operation(op, None).unwrap(), true);
    let c = toc.get_collection(&String::from("c1")).unwrap();
    assert_eq!(c.config.optimizer_config.default_segment_number, 9);
    assert_eq!(c.config.optimizer_config.indexing_threshold, 77);
    assert_eq!(c.config.optimizer_config.flush_interval_sec, 30);
}

#[test]
fn test_submit_with_zero_timeout_times_out() {
    let mut toc = TableOfContent::new(
        storage_config(),
        Some(ConsensusEnabled { first_peer: true }),
        1,
    );
    assert!(matches!(
        toc.submit_collection_operation(create_op("c1"), Some(0)),
        Err(StorageError::ServiceError(_))
    ));
    assert!(toc.all_collections().is_empty());
}

#[test]
fn test_correlation_wait() {
    let mut toc = TableOfContent::new(
        storage_config(),
        Some(ConsensusEnabled { first_peer: true }),
        1,
    );
    let op = create_op("c1");
    let consensus_op = ConsensusOperations::CollectionMeta(op.clone());
    assert!(matches!(
        toc.submit_collection_operation(op, None),
        Err(StorageError::ServiceError(_))
    ));
    assert!(matches!(
        toc.get_collection(&String::from("c1")),
        Err(StorageError::CollectionNotFound(_))
    ));
    assert!(toc.consensus_op_result(&consensus_op).is_none());
    let proposal = toc.take_proposal().unwrap();
    assert!(toc.take_proposal().is_none());
    let entry = ConsensusEntry {
        entry_type: EntryKind::Normal,
        term: 1,
        index: 1,
        data: proposal,
    };
    toc.append_entries_checked(vec![entry]).unwrap();
    toc.set_unapplied_entries(1, 1).unwrap();
    assert_eq!(toc.current_unapplied_entry(), Some(1));
    let conf_changes = toc.apply_entries().unwrap();
    assert!(conf_changes.is_empty());
    assert_eq!(toc.current_unapplied_entry(), None);
    let outcome = toc.consensus_op_result(&consensus_op).unwrap();
    assert_eq!(outcome.unwrap(), true);
    assert!(toc.consensus_op_result(&consensus_op).is_none());
    assert!(toc.get_collection(&String::from("c1")).is_ok());
}

#[test]
fn test_append_entries_gap_keeps_log_unchanged() {
    let mut toc = local_toc();
    let e1 = ConsensusEntry { entry_type: EntryKind::Normal, term: 1, index: 1, data: vec![7] };
    let e3 = ConsensusEntry { entry_type: EntryKind::Normal, term: 1, index: 3, data: vec![8] };
    assert!(matches!(
        toc.append_entries_checked(vec![e1, e3]),
        Err(StorageError::ServiceError(_))
    ));
    assert_eq!(toc.last_index().unwrap(), 0);
}

#[test]
fn test_first_index_after_init() {
    let toc = local_toc();
    assert_eq!(toc.first_index().unwrap(), 1);
    assert_eq!(toc.last_index().unwrap(), 0);
}

#[test]
fn test_snapshot_temporarily_unavailable() {
    let mut toc = local_toc();
    assert!(matches!(
        toc.snapshot(5),
        Err(meta_toc::errors::RaftError::SnapshotTemporarilyUnavailable)
    ));
    toc.set_commit_index(5).unwrap();
    let sd = toc.snapshot(5).unwrap();
    assert_eq!(sd.index, 5);
}

#[test]
fn test_snapshot_convergence() {
    let mut peer_a = local_toc();
    peer_a.submit_collection_operation(create_op("c1"), None).unwrap();
    peer_a.submit_collection_operation(create_op("c2"), None).unwrap();
    let alias_op = CollectionMetaOperations::ChangeAliases(ChangeAliasesOperation {
        actions: vec![AliasOperations::CreateAlias {
            collection_name: String::from("c1"),
            alias_name: String::from("a1"),
        }],
    });
    peer_a.submit_collection_operation(alias_op, None).unwrap();
    peer_a.add_peer(1, String::from("http://peer-one")).unwrap();
    let snapshot = peer_a.snapshot(0).unwrap();

    let mut peer_b = local_toc();
    peer_b.submit_collection_operation(create_op("c2"), None).unwrap();
    peer_b.submit_collection_operation(create_op("c3"), None).unwrap();
    peer_b.apply_snapshot(&snapshot.data).unwrap();

    let mut names = peer_b.all_collections();
    names.sort();
    assert_eq!(names, vec![String::from("c1"), String::from("c2")]);
    assert_eq!(peer_b.resolve(&String::from("a1")).unwrap(), "c1");
    let aliases = peer_b.collection_aliases(&String::from("c1")).unwrap();
    assert_eq!(aliases, vec![String::from("a1")]);
    let peers = peer_b.peer_address_by_id().unwrap();
    assert_eq!(peers.len(), 1);
    assert_eq!(peers[0].0, 1);
    assert_eq!(peers[0].1, "http://peer-one");
}

#[test]
fn test_add_peer_applied_from_entry() {
    let mut toc = TableOfContent::new(
        storage_config(),
        Some(ConsensusEnabled { first_peer: true }),
        7,
    );
    assert_eq!(toc.this_peer_id(), 7);
    let op = ConsensusOperations::AddPeer(9, String::from("http://peer-nine"));
    assert!(matches!(
        toc.propose_consensus_op(op.clone(), None),
        Err(StorageError::ServiceError(_))
    ));
    let proposal = toc.take_proposal().unwrap();
    let entry = ConsensusEntry { entry_type: EntryKind::Normal, term: 1, index: 1, data: proposal };
    toc.append_entries_checked(vec![entry]).unwrap();
    toc.set_unapplied_entries(1, 1).unwrap();
    toc.apply_entries().unwrap();
    assert_eq!(toc.consensus_op_result(&op).unwrap().unwrap(), true);
    let peers = toc.peer_address_by_id().unwrap();
    assert_eq!(peers, vec![(9, String::from("http://peer-nine"))]);
}

#[test]
fn test_propose_without_consensus_fails() {
    let mut toc = local_toc();
    assert!(matches!(
        toc.propose_consensus_op(ConsensusOperations::AddPeer(2, String::from("u")), None),
        Err(StorageError::ServiceError(_))
    ));
}

#[test]
fn test_wal_entry_round_trip_and_term() {
    let mut toc = local_toc();
    let e1 = ConsensusEntry {
        entry_type: EntryKind::Normal,
        term: 4,
        index: 1,
        data: vec![1, 2, 3],
    };
    let e2 = ConsensusEntry {
        entry_type: EntryKind::ConfChangeV2,
        term: 5,
        index: 2,
        data: vec![],
    };
    toc.append_entries_checked(vec![e1.clone(), e2.clone()]).unwrap();
    assert_eq!(toc.collection_wal_entry(1).unwrap(), e1);
    assert_eq!(toc.collection_wal_entry(2).unwrap(), e2);
    assert!(matches!(
        toc.collection_wal_entry(0),
        Err(meta_toc::errors::RaftError::Unavailable)
    ));
    assert!(matches!(
        toc.collection_wal_entry(3),
        Err(meta_toc::errors::RaftError::Unavailable)
    ));
    let list = toc.entries(1, 3, None).unwrap();
    assert_eq!(list, vec![e1.clone(), e2.clone()]);
    let list = toc.entries(1, 3, Some(1)).unwrap();
    assert_eq!(list, vec![e1]);
    assert_eq!(toc.term(1).unwrap(), 4);
    assert_eq!(toc.term(2).unwrap(), 5);
    assert_eq!(toc.term(0).unwrap(), 0);
}

#[test]
fn test_initial_state_first_peer_is_voter() {
    let toc = TableOfContent::new(
        storage_config(),
        Some(ConsensusEnabled { first_peer: true }),
        11,
    );
    let info = toc.initial_state().unwrap();
    assert_eq!(info.hard_state.term, 0);
    assert_eq!(info.hard_state.commit, 0);
    assert_eq!(info.voters, vec![11]);
    assert!(info.learners.is_empty());

    let follower = TableOfContent::new(
        storage_config(),
        Some(ConsensusEnabled { first_peer: false }),
        12,
    );
    assert!(follower.initial_state().unwrap().voters.is_empty());
}

#[test]
fn test_get_collection_path_layout() {
    let toc = local_toc();
    assert_eq!(
        toc.get_collection_path(&String::from("c1")),
        "storage/collections/c1"
    );
}

#[test]
fn test_delete_collection_unbinds_its_aliases() {
    let mut toc = local_toc();
    toc.submit_collection_operation(create_op("c1"), None).unwrap();
    toc.submit_collection_operation(create_op("c2"), None).unwrap();
    let op = CollectionMetaOperations::ChangeAliases(ChangeAliasesOperation {
        actions: vec![
            AliasOperations::CreateAlias {
                collection_name: String::from("c1"),
                alias_name: String::from("a1"),
            },
            AliasOperations::CreateAlias {
                collection_name: String::from("c2"),
                alias_name: String::from("a2"),
            },
        ],
    });
    toc.submit_collection_operation(op, None).unwrap();
    let r = toc.submit_collection_operation(
        CollectionMetaOperations::DeleteCollection(DeleteCollectionOperation(String::from("c1"))),
        None,
    );
    assert_eq!(r.unwrap(), true);
    assert!(toc.collection_aliases(&String::from("c1")).unwrap().is_empty());
    assert!(matches!(
        toc.resolve(&String::from("a1")),
        Err(StorageError::CollectionNotFound(_))
    ));
    assert_eq!(toc.resolve(&String::from("a2")).unwrap(), "c2");
}
