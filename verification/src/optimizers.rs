//! The segment-optimizer set of a shard.
//!
//! Three optimizers share one threshold record and run in a fixed
//! priority order: merge first, then indexing, then vacuum. Fractional
//! thresholds are integers in parts per million, so the candidate
//! decisions stay in integer arithmetic.

use vstd::prelude::*;

use crate::ops::CollectionParams;
use crate::ops::HnswConfig;
use crate::ops::OptimizersConfig;
use vstd::string::StringExecFns;

verus! {

pub const PPM_SCALE: u64 = 1000000;

/// Thresholds shared by every optimizer of a shard.
#[derive(Clone, Copy, PartialEq, Eq, Structural, Debug)]
pub struct OptimizerThresholds {
    pub memmap_threshold: u64,
    pub indexing_threshold: u64,
    pub payload_indexing_threshold: u64,
}

/// One background optimizer of a shard.
pub enum SegmentOptimizer {
    /// Keeps the segment count near `default_segment_number`; never builds
    /// segments of more than `max_segment_size` points.
    Merge {
        default_segment_number: u64,
        max_segment_size: u64,
        thresholds: OptimizerThresholds,
        segments_path: String,
        temp_segments_path: String,
        collection_params: CollectionParams,
        hnsw_config: HnswConfig,
    },
    /// Promotes segments past the thresholds to indexed, memory-mapped,
    /// or payload-indexed form.
    Indexing {
        thresholds: OptimizerThresholds,
        segments_path: String,
        temp_segments_path: String,
        collection_params: CollectionParams,
        hnsw_config: HnswConfig,
    },
    /// Rewrites segments whose deleted fraction reaches the threshold and
    /// which hold enough vectors.
    Vacuum {
        deleted_threshold_ppm: u64,
        vacuum_min_vector_number: u64,
        thresholds: OptimizerThresholds,
        segments_path: String,
        temp_segments_path: String,
        collection_params: CollectionParams,
        hnsw_config: HnswConfig,
    },
}

pub open spec fn spec_thresholds(c: OptimizersConfig) -> OptimizerThresholds {
    OptimizerThresholds {
        memmap_threshold: c.memmap_threshold,
        indexing_threshold: c.indexing_threshold,
        payload_indexing_threshold: c.payload_indexing_threshold,
    }
}

/// Builds the ordered optimizer set for a shard: merge, then indexing,
/// then vacuum, all over the same thresholds and staging directories.
pub fn build_optimizers(
    shard_path: &String,
    collection_params: &CollectionParams,
    optimizers_config: &OptimizersConfig,
    hnsw_config: &HnswConfig,
) -> (r: Vec<SegmentOptimizer>)
    ensures
        r@.len() == 3,
        r@[0] == (SegmentOptimizer::Merge {
            default_segment_number: optimizers_config.default_segment_number,
            max_segment_size: optimizers_config.max_segment_size,
            thresholds: spec_thresholds(*optimizers_config),
            segments_path: r@[0]->Merge_segments_path,
            temp_segments_path: r@[0]->Merge_temp_segments_path,
            collection_params: *collection_params,
            hnsw_config: *hnsw_config,
        }),
        r@[0]->Merge_segments_path@ == shard_path@ + "/segments"@,
        r@[0]->Merge_temp_segments_path@ == shard_path@ + "/temp_segments"@,
        r@[1] == (SegmentOptimizer::Indexing {
            thresholds: spec_thresholds(*optimizers_config),
            segments_path: r@[1]->Indexing_segments_path,
            temp_segments_path: r@[1]->Indexing_temp_segments_path,
            collection_params: *collection_params,
            hnsw_config: *hnsw_config,
        }),
        r@[1]->Indexing_segments_path@ == shard_path@ + "/segments"@,
        r@[1]->Indexing_temp_segments_path@ == shard_path@ + "/temp_segments"@,
        r@[2] == (SegmentOptimizer::Vacuum {
            deleted_threshold_ppm: optimizers_config.deleted_threshold_ppm,
            vacuum_min_vector_number: optimizers_config.vacuum_min_vector_number,
            thresholds: spec_thresholds(*optimizers_config),
            segments_path: r@[2]->Vacuum_segments_path,
            temp_segments_path: r@[2]->Vacuum_temp_segments_path,
            collection_params: *collection_params,
            hnsw_config: *hnsw_config,
        }),
        r@[2]->Vacuum_segments_path@ == shard_path@ + "/segments"@,
        r@[2]->Vacuum_temp_segments_path@ == shard_path@ + "/temp_segments"@,
{
    let mut segments_path = shard_path.clone();
    segments_path.append("/segments");
    let mut temp_segments_path = shard_path.clone();
    temp_segments_path.append("/temp_segments");
    let thresholds = OptimizerThresholds {
        memmap_threshold: optimizers_config.memmap_threshold,
        indexing_threshold: optimizers_config.indexing_threshold,
        payload_indexing_threshold: optimizers_config.payload_indexing_threshold,
    };
    let mut r: Vec<SegmentOptimizer> = Vec::new();
    r.push(
        SegmentOptimizer::Merge {
            default_segment_number: optimizers_config.default_segment_number,
            max_segment_size: optimizers_config.max_segment_size,
            thresholds,
            segments_path: segments_path.clone(),
            temp_segments_path: temp_segments_path.clone(),
            collection_params: *collection_params,
            hnsw_config: *hnsw_config,
        },
    );
    r.push(
        SegmentOptimizer::Indexing {
            thresholds,
            segments_path: segments_path.clone(),
            temp_segments_path: temp_segments_path.clone(),
            collection_params: *collection_params,
            hnsw_config: *hnsw_config,
        },
    );
    r.push(
        SegmentOptimizer::Vacuum {
            deleted_threshold_ppm: optimizers_config.deleted_threshold_ppm,
            vacuum_min_vector_number: optimizers_config.vacuum_min_vector_number,
            thresholds,
            segments_path,
            temp_segments_path,
            collection_params: *collection_params,
            hnsw_config: *hnsw_config,
        },
    );
    r
}

/// A vacuum rewrite is due when the deleted fraction reaches the
/// threshold and the segment holds enough live vectors.
pub open spec fn spec_vacuum_due(
    deleted_threshold_ppm: u64,
    vacuum_min_vector_number: u64,
    total_vectors: u64,
    deleted_vectors: u64,
) -> bool {
    &&& total_vectors - deleted_vectors >= vacuum_min_vector_number
    &&& total_vectors > 0
    &&& deleted_vectors * PPM_SCALE >= deleted_threshold_ppm * total_vectors
}

/// Whether a segment is due for a vacuum rewrite.
pub fn vacuum_due(
    deleted_threshold_ppm: u64,
    vacuum_min_vector_number: u64,
    total_vectors: u64,
    deleted_vectors: u64,
) -> (r: bool)
    requires
        deleted_vectors <= total_vectors,
    ensures
        r == spec_vacuum_due(
            deleted_threshold_ppm,
            vacuum_min_vector_number,
            total_vectors,
            deleted_vectors,
        ),
{
    let d = deleted_vectors as u128;
    let s = PPM_SCALE as u128;
    let p = deleted_threshold_ppm as u128;
    let t = total_vectors as u128;
    proof {
        assert(d * s <= u128::MAX && p * t <= u128::MAX) by (nonlinear_arith)
            requires
                d < 0x10000000000000000,
                s < 0x10000000000000000,
                p < 0x10000000000000000,
                t < 0x10000000000000000,
        ;
    }
    total_vectors - deleted_vectors >= vacuum_min_vector_number && total_vectors > 0 && d * s >= p
        * t
}

/// An indexing rewrite is due when the vector count passes any of the
/// shared thresholds.
pub open spec fn spec_indexing_due(t: OptimizerThresholds, vectors: u64) -> bool {
    vectors > t.indexing_threshold || vectors > t.memmap_threshold || vectors
        > t.payload_indexing_threshold
}

/// Whether a segment is due for promotion to indexed, memory-mapped, or
/// payload-indexed form.
pub fn indexing_due(t: &OptimizerThresholds, vectors: u64) -> (r: bool)
    ensures
        r == spec_indexing_due(*t, vectors),
{
    vectors > t.indexing_threshold || vectors > t.memmap_threshold || vectors
        > t.payload_indexing_threshold
}

/// A merge is due when the shard holds more segments than the target.
pub fn merge_due(default_segment_number: u64, segment_count: u64) -> (r: bool)
    ensures
        r == (segment_count > default_segment_number),
{
    segment_count > default_segment_number
}

} // verus!
