use meta_toc::codec::decode_consensus_op;
use meta_toc::codec::decode_entry;
use meta_toc::codec::decode_snapshot;
use meta_toc::codec::encode_consensus_op;
use meta_toc::codec::encode_entry;
use meta_toc::codec::encode_snapshot;
use meta_toc::ops::AliasOperations;
use meta_toc::ops::ChangeAliasesOperation;
use meta_toc::ops::CollectionConfig;
use meta_toc::ops::CollectionMetaOperations;
use meta_toc::ops::CollectionParams;
use meta_toc::ops::CollectionState;
use meta_toc::ops::ConsensusEntry;
use meta_toc::ops::ConsensusOperations;
use meta_toc::ops::CreateCollection;
use meta_toc::ops::CreateCollectionOperation;
use meta_toc::ops::DeleteCollectionOperation;
use meta_toc::ops::Distance;
use meta_toc::ops::EntryKind;
use meta_toc::ops::HnswConfig;
use meta_toc::ops::HnswConfigDiff;
use meta_toc::ops::OptimizersConfig;
use meta_toc::ops::OptimizersConfigDiff;
use meta_toc::ops::StateSnapshot;
use meta_toc::ops::UpdateCollection;
use meta_toc::ops::UpdateCollectionOperation;
use meta_toc::ops::WalConfig;
use meta_toc::ops::WalConfigDiff;

fn sample_config() -> CollectionConfig {
    CollectionConfig {
        params: CollectionParams { vector_size: 128, distance: Distance::Dot, shard_number: 3 },
        hnsw_config: HnswConfig { m: 16, ef_construct: 100, full_scan_threshold: 10_000 },
        wal_config: WalConfig { wal_capacity_mb: 32, wal_segments_ahead: 1 },
        optimizer_config: OptimizersConfig {
            deleted_threshold_ppm: 200_000,
            vacuum_min_vector_number: 1_000,
            default_segment_number: 5,
            max_segment_size: 100_000,
            memmap_threshold: 50_000,
            indexing_threshold: 20_000,
            payload_indexing_threshold: 10_000,
            flush_interval_sec: 30,
            max_optimization_threads: 2,
        },
    }
}

#[test]
fn test_consensus_op_round_trip_create() {
    let op = ConsensusOperations::CollectionMeta(CollectionMetaOperations::CreateCollection(
        CreateCollectionOperation {
            collection_name: String::from("caf\u{e9}-vectors"),
            create_collection: CreateCollection {
                vector_size: 512,
                distance: Distance::Cosine,
                shard_number: 2,
                hnsw_config: Some(HnswConfigDiff {
                    m: Some(32),
                    ef_construct: None,
                    full_scan_threshold: Some(0),
                }),
                wal_config: Some(WalConfigDiff {
                    wal_capacity_mb: None,
                    wal_segments_ahead: Some(4),
                }),
                optimizers_config: Some(OptimizersConfigDiff {
                    deleted_threshold_ppm: Some(1),
                    vacuum_min_vector_number: None,
                    default_segment_number: None,
                    max_segment_size: Some(u64::MAX),
                    memmap_threshold: None,
                    indexing_threshold: None,
                    payload_indexing_threshold: None,
                    flush_interval_sec: None,
                    max_optimization_threads: Some(0),
                }),
            },
        },
    ));
    let bytes = encode_consensus_op(&op);
    assert_eq!(decode_consensus_op(&bytes), Some(op));
}

#[test]
fn test_consensus_op_round_trip_other_variants() {
    let ops = vec![
        ConsensusOperations::CollectionMeta(CollectionMetaOperations::UpdateCollection(
            UpdateCollectionOperation {
                collection_name: String::from("c"),
                update_collection: UpdateCollection { optimizers_config: None },
            },
        )),
        ConsensusOperations::CollectionMeta(CollectionMetaOperations::DeleteCollection(
            DeleteCollectionOperation(String::from("")),
        )),
        ConsensusOperations::CollectionMeta(CollectionMetaOperations::ChangeAliases(
            ChangeAliasesOperation {
                actions: vec![
                    AliasOperations::CreateAlias {
                        collection_name: String::from("c1"),
                        alias_name: String::from("a1"),
                    },
                    AliasOperations::DeleteAlias { alias_name: String::from("a2") },
                    AliasOperations::RenameAlias {
                        old_alias_name: String::from("x"),
                        new_alias_name: String::from("y"),
                    },
                ],
            },
        )),
        ConsensusOperations::AddPeer(42, String::from("http://localhost:6335")),
    ];
    for op in ops {
        let bytes = encode_consensus_op(&op);
        assert_eq!(decode_consensus_op(&bytes), Some(op));
    }
}

#[test]
fn test_decode_rejects_trailing_and_garbage() {
    let op = ConsensusOperations::AddPeer(1, String::from("u"));
    let mut bytes = encode_consensus_op(&op);
    bytes.push(0);
    assert_eq!(decode_consensus_op(&bytes), None);
    assert_eq!(decode_consensus_op(&[0xffu8, 1, 2]), None);
    assert_eq!(decode_consensus_op(&[]), None);
}

#[test]
fn test_snapshot_round_trip() {
    let snapshot = StateSnapshot {
        collections: vec![
            (String::from("c1"), CollectionState { config: sample_config() }),
            (String::from("c2"), CollectionState { config: sample_config() }),
        ],
        aliases: vec![(String::from("a1"), String::from("c1"))],
        address_by_id: vec![(1, String::from("http://p1")), (2, String::from("http://p2"))],
    };
    let bytes = encode_snapshot(&snapshot);
    assert_eq!(decode_snapshot(&bytes), Some(snapshot));

    let empty = StateSnapshot { collections: vec![], aliases: vec![], address_by_id: vec![] };
    let bytes = encode_snapshot(&empty);
    assert_eq!(decode_snapshot(&bytes), Some(empty));
}

#[test]
fn test_entry_round_trip() {
    let entry = ConsensusEntry {
        entry_type: EntryKind::ConfChangeV2,
        term: 7,
        index: 19,
        data: vec![0, 255, 1, 128],
    };
    let bytes = encode_entry(&entry);
    assert_eq!(decode_entry(&bytes), Some(entry));
    assert_eq!(decode_entry(&[1, 2]), None);
}
