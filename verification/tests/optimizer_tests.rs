use meta_toc::ops::CollectionParams;
use meta_toc::ops::Distance;
use meta_toc::ops::HnswConfig;
use meta_toc::ops::OptimizersConfig;
use meta_toc::optimizers::build_optimizers;
use meta_toc::optimizers::indexing_due;
use meta_toc::optimizers::merge_due;
use meta_toc::optimizers::vacuum_due;
use meta_toc::optimizers::OptimizerThresholds;
use meta_toc::optimizers::SegmentOptimizer;

#[test]
fn test_build_optimizers_order_and_parameters() {
    let params = CollectionParams { vector_size: 4, distance: Distance::Euclid, shard_number: 1 };
    let config = OptimizersConfig {
        deleted_threshold_ppm: 900_000,
        vacuum_min_vector_number: 1_000,
        default_segment_number: 5,
        max_segment_size: 100_000,
        memmap_threshold: 50_000,
        indexing_threshold: 20_000,
        payload_indexing_threshold: 10_000,
        flush_interval_sec: 30,
        max_optimization_threads: 2,
    };
    let hnsw = HnswConfig { m: 16, ef_construct: 100, full_scan_threshold: 10_000 };
    let optimizers = build_optimizers(&String::from("shard0"), &params, &config, &hnsw);
    assert_eq!(optimizers.len(), 3);
    match &optimizers[0] {
        SegmentOptimizer::Merge {
            default_segment_number,
            max_segment_size,
            thresholds,
            segments_path,
            temp_segments_path,
            ..
        } => {
            assert_eq!(*default_segment_number, 5);
            assert_eq!(*max_segment_size, 100_000);
            assert_eq!(thresholds.memmap_threshold, 50_000);
            assert_eq!(segments_path, "shard0/segments");
            assert_eq!(temp_segments_path, "shard0/temp_segments");
        },
        _ => panic!("first optimizer must be the merge optimizer"),
    }
    assert!(matches!(&optimizers[1], SegmentOptimizer::Indexing { .. }));
    match &optimizers[2] {
        SegmentOptimizer::Vacuum { deleted_threshold_ppm, vacuum_min_vector_number, .. } => {
            assert_eq!(*deleted_threshold_ppm, 900_000);
            assert_eq!(*vacuum_min_vector_number, 1_000);
        },
        _ => panic!("last optimizer must be the vacuum optimizer"),
    }
}

#[test]
fn test_vacuum_due_fraction_boundary() {
    // Threshold one half: 50 of 100 deleted qualifies, 49 does not.
    assert!(vacuum_due(500_000, 10, 100, 50));
    assert!(!vacuum_due(500_000, 10, 100, 49));
    // Not enough live vectors left.
    assert!(!vacuum_due(500_000, 51, 100, 50));
    // An empty segment is never a candidate.
    assert!(!vacuum_due(0, 0, 0, 0));
}

#[test]
fn test_indexing_due_thresholds() {
    let t = OptimizerThresholds {
        memmap_threshold: 100,
        indexing_threshold: 50,
        payload_indexing_threshold: 200,
    };
    assert!(!indexing_due(&t, 50));
    assert!(indexing_due(&t, 51));
    assert!(indexing_due(&t, 1_000));
}

#[test]
fn test_merge_due_segment_count() {
    assert!(!merge_due(5, 5));
    assert!(merge_due(5, 6));
}
