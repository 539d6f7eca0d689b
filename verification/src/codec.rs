//! The wire codec for consensus payloads.
//!
//! Consensus operations, snapshots and log entries travel and rest as
//! bytes. This module fixes one deterministic encoding — little-endian
//! 64-bit integers, one-byte tags, and length-prefixed UTF-8 strings —
//! defines the matching decoder, and proves that decoding inverts
//! encoding.

use vstd::prelude::*;

use vstd::bytes::lemma_auto_spec_u64_to_from_le_bytes;
use vstd::bytes::spec_u64_from_le_bytes;
use vstd::bytes::spec_u64_to_le_bytes;
use vstd::bytes::u64_from_le_bytes;
use vstd::bytes::u64_to_le_bytes;
use vstd::slice::slice_subrange;
use vstd::slice::slice_to_vec;
use vstd::utf8::decode_utf8;
use vstd::utf8::encode_utf8;
use vstd::utf8::encode_utf8_decode_utf8;
use vstd::utf8::encode_utf8_valid_utf8;
use vstd::utf8::valid_utf8;

verus! {

// ------------------------------------------------------------------
// Primitives: u64, tag byte, raw bytes, strings, optional u64.
// ------------------------------------------------------------------

pub open spec fn enc_u64(x: u64) -> Seq<u8> {
    spec_u64_to_le_bytes(x)
}

pub open spec fn dec_u64(b: Seq<u8>) -> Option<(u64, Seq<u8>)> {
    if b.len() >= 8 {
        Some((spec_u64_from_le_bytes(b.take(8)), b.skip(8)))
    } else {
        None
    }
}

/// Concatenation is associative; stated once so that the long encoders
/// can be rearranged cheaply.
pub proof fn lemma_app_assoc<T>(a: Seq<T>, b: Seq<T>, c: Seq<T>)
    ensures
        a + b + c == a + (b + c),
{
    assert(a + b + c =~= a + (b + c));
}

pub proof fn lemma_dec_u64(x: u64, rest: Seq<u8>)
    ensures
        enc_u64(x).len() == 8,
        dec_u64(enc_u64(x) + rest) == Some::<(u64, Seq<u8>)>((x, rest)),
{
    lemma_auto_spec_u64_to_from_le_bytes();
    assert((enc_u64(x) + rest).take(8) =~= enc_u64(x));
    assert((enc_u64(x) + rest).skip(8) =~= rest);
}

pub open spec fn enc_tag(t: u8) -> Seq<u8> {
    seq![t]
}

pub open spec fn dec_tag(b: Seq<u8>) -> Option<(u8, Seq<u8>)> {
    if b.len() >= 1 {
        Some((b[0], b.skip(1)))
    } else {
        None
    }
}

pub proof fn lemma_dec_tag(t: u8, rest: Seq<u8>)
    ensures
        enc_tag(t).len() == 1,
        dec_tag(enc_tag(t) + rest) == Some::<(u8, Seq<u8>)>((t, rest)),
{
    assert((enc_tag(t) + rest)[0] == t);
    assert((enc_tag(t) + rest).skip(1) =~= rest);
}

pub open spec fn enc_bytes(d: Seq<u8>) -> Seq<u8> {
    enc_u64(d.len() as u64) + d
}

pub open spec fn dec_bytes(b: Seq<u8>) -> Option<(Seq<u8>, Seq<u8>)> {
    match dec_u64(b) {
        Some((n, r)) => if r.len() >= n {
            Some((r.take(n as int), r.skip(n as int)))
        } else {
            None
        },
        None => None,
    }
}

pub proof fn lemma_dec_bytes(d: Seq<u8>, rest: Seq<u8>)
    requires
        d.len() <= u64::MAX,
    ensures
        dec_bytes(enc_bytes(d) + rest) == Some::<(Seq<u8>, Seq<u8>)>((d, rest)),
{
    let n = d.len() as u64;
    assert(enc_bytes(d) + rest =~= enc_u64(n) + (d + rest));
    lemma_dec_u64(n, d + rest);
    assert((d + rest).take(n as int) =~= d);
    assert((d + rest).skip(n as int) =~= rest);
}

/// The string's UTF-8 form fits behind a 64-bit length prefix.
pub open spec fn wf_str(s: Seq<char>) -> bool {
    encode_utf8(s).len() <= u64::MAX
}

pub open spec fn enc_str(s: Seq<char>) -> Seq<u8> {
    enc_bytes(encode_utf8(s))
}

pub open spec fn dec_str(b: Seq<u8>) -> Option<(Seq<char>, Seq<u8>)> {
    match dec_bytes(b) {
        Some((d, r)) => if valid_utf8(d) {
            Some((decode_utf8(d), r))
        } else {
            None
        },
        None => None,
    }
}

pub proof fn lemma_dec_str(s: Seq<char>, rest: Seq<u8>)
    requires
        wf_str(s),
    ensures
        dec_str(enc_str(s) + rest) == Some::<(Seq<char>, Seq<u8>)>((s, rest)),
{
    lemma_dec_bytes(encode_utf8(s), rest);
    encode_utf8_valid_utf8(s);
    encode_utf8_decode_utf8(s);
}

pub open spec fn enc_opt_u64(o: Option<u64>) -> Seq<u8> {
    match o {
        None => enc_tag(0),
        Some(x) => enc_tag(1) + enc_u64(x),
    }
}

pub open spec fn dec_opt_u64(b: Seq<u8>) -> Option<(Option<u64>, Seq<u8>)> {
    match dec_tag(b) {
        Some((t, r)) => if t == 0 {
            Some((None, r))
        } else if t == 1 {
            match dec_u64(r) {
                Some((x, r2)) => Some((Some(x), r2)),
                None => None,
            }
        } else {
            None
        },
        None => None,
    }
}

pub proof fn lemma_dec_opt_u64(o: Option<u64>, rest: Seq<u8>)
    ensures
        dec_opt_u64(enc_opt_u64(o) + rest) == Some::<(Option<u64>, Seq<u8>)>((o, rest)),
{
    match o {
        None => {
            lemma_dec_tag(0, rest);
        },
        Some(x) => {
            assert(enc_opt_u64(o) + rest =~= enc_tag(1) + (enc_u64(x) + rest));
            lemma_dec_tag(1, enc_u64(x) + rest);
            lemma_dec_u64(x, rest);
        },
    }
}

} // verus!

verus! {

use crate::ops::AliasOperationsV;
use crate::ops::CollectionConfig;
use crate::ops::CollectionParams;
use crate::ops::CollectionState;
use crate::ops::ConsensusEntryV;
use crate::ops::ConsensusOpV;
use crate::ops::CreateCollection;
use crate::ops::Distance;
use crate::ops::EntryKind;
use crate::ops::HnswConfig;
use crate::ops::HnswConfigDiff;
use crate::ops::MetaOpV;
use crate::ops::OptimizersConfig;
use crate::ops::OptimizersConfigDiff;
use crate::ops::StateSnapshotV;
use crate::ops::UpdateCollection;
use crate::ops::WalConfig;
use crate::ops::WalConfigDiff;

// ------------------------------------------------------------------
// Enumerations and flat configuration records.
// ------------------------------------------------------------------

pub open spec fn enc_distance(d: Distance) -> Seq<u8> {
    match d {
        Distance::Cosine => enc_tag(0),
        Distance::Euclid => enc_tag(1),
        Distance::Dot => enc_tag(2),
    }
}

pub open spec fn dec_distance(b: Seq<u8>) -> Option<(Distance, Seq<u8>)> {
    match dec_tag(b) {
        Some((t, r)) => if t == 0 {
            Some((Distance::Cosine, r))
        } else if t == 1 {
            Some((Distance::Euclid, r))
        } else if t == 2 {
            Some((Distance::Dot, r))
        } else {
            None
        },
        None => None,
    }
}

pub proof fn lemma_dec_distance(d: Distance, rest: Seq<u8>)
    ensures
        dec_distance(enc_distance(d) + rest) == Some::<(Distance, Seq<u8>)>((d, rest)),
{
    match d {
        Distance::Cosine => lemma_dec_tag(0, rest),
        Distance::Euclid => lemma_dec_tag(1, rest),
        Distance::Dot => lemma_dec_tag(2, rest),
    }
}

pub open spec fn enc_kind(k: EntryKind) -> Seq<u8> {
    match k {
        EntryKind::Normal => enc_tag(0),
        EntryKind::ConfChangeV2 => enc_tag(1),
    }
}

pub open spec fn dec_kind(b: Seq<u8>) -> Option<(EntryKind, Seq<u8>)> {
    match dec_tag(b) {
        Some((t, r)) => if t == 0 {
            Some((EntryKind::Normal, r))
        } else if t == 1 {
            Some((EntryKind::ConfChangeV2, r))
        } else {
            None
        },
        None => None,
    }
}

pub proof fn lemma_dec_kind(k: EntryKind, rest: Seq<u8>)
    ensures
        dec_kind(enc_kind(k) + rest) == Some::<(EntryKind, Seq<u8>)>((k, rest)),
{
    match k {
        EntryKind::Normal => lemma_dec_tag(0, rest),
        EntryKind::ConfChangeV2 => lemma_dec_tag(1, rest),
    }
}

pub open spec fn enc_hnsw(c: HnswConfig) -> Seq<u8> {
    enc_u64(c.m) + enc_u64(c.ef_construct) + enc_u64(c.full_scan_threshold)
}

pub open spec fn dec_hnsw(b: Seq<u8>) -> Option<(HnswConfig, Seq<u8>)> {
    match dec_u64(b) {
        Some((m, b1)) => match dec_u64(b1) {
            Some((ef_construct, b2)) => match dec_u64(b2) {
                Some((full_scan_threshold, b3)) => Some(
                    (HnswConfig { m, ef_construct, full_scan_threshold }, b3),
                ),
                None => None,
            },
            None => None,
        },
        None => None,
    }
}

pub proof fn lemma_dec_hnsw(c: HnswConfig, rest: Seq<u8>)
    ensures
        dec_hnsw(enc_hnsw(c) + rest) == Some::<(HnswConfig, Seq<u8>)>((c, rest)),
{
    let r2 = enc_u64(c.full_scan_threshold) + rest;
    let r1 = enc_u64(c.ef_construct) + r2;
    assert(enc_hnsw(c) + rest =~= enc_u64(c.m) + r1);
    lemma_dec_u64(c.m, r1);
    lemma_dec_u64(c.ef_construct, r2);
    lemma_dec_u64(c.full_scan_threshold, rest);
}

pub open spec fn enc_walcfg(c: WalConfig) -> Seq<u8> {
    enc_u64(c.wal_capacity_mb) + enc_u64(c.wal_segments_ahead)
}

pub open spec fn dec_walcfg(b: Seq<u8>) -> Option<(WalConfig, Seq<u8>)> {
    match dec_u64(b) {
        Some((wal_capacity_mb, b1)) => match dec_u64(b1) {
            Some((wal_segments_ahead, b2)) => Some(
                (WalConfig { wal_capacity_mb, wal_segments_ahead }, b2),
            ),
            None => None,
        },
        None => None,
    }
}

pub proof fn lemma_dec_walcfg(c: WalConfig, rest: Seq<u8>)
    ensures
        dec_walcfg(enc_walcfg(c) + rest) == Some::<(WalConfig, Seq<u8>)>((c, rest)),
{
    let r1 = enc_u64(c.wal_segments_ahead) + rest;
    assert(enc_walcfg(c) + rest =~= enc_u64(c.wal_capacity_mb) + r1);
    lemma_dec_u64(c.wal_capacity_mb, r1);
    lemma_dec_u64(c.wal_segments_ahead, rest);
}

pub open spec fn enc_optcfg(c: OptimizersConfig) -> Seq<u8> {
    enc_u64(c.deleted_threshold_ppm) + enc_u64(c.vacuum_min_vector_number) + enc_u64(
        c.default_segment_number,
    ) + enc_u64(c.max_segment_size) + enc_u64(c.memmap_threshold) + enc_u64(c.indexing_threshold)
        + enc_u64(c.payload_indexing_threshold) + enc_u64(c.flush_interval_sec) + enc_u64(
        c.max_optimization_threads,
    )
}

pub open spec fn dec_optcfg(b: Seq<u8>) -> Option<(OptimizersConfig, Seq<u8>)> {
    match dec_u64(b) {
        Some((deleted_threshold_ppm, b1)) => match dec_u64(b1) {
            Some((vacuum_min_vector_number, b2)) => match dec_u64(b2) {
                Some((default_segment_number, b3)) => match dec_u64(b3) {
                    Some((max_segment_size, b4)) => match dec_u64(b4) {
                        Some((memmap_threshold, b5)) => match dec_u64(b5) {
                            Some((indexing_threshold, b6)) => match dec_u64(b6) {
                                Some((payload_indexing_threshold, b7)) => match dec_u64(b7) {
                                    Some((flush_interval_sec, b8)) => match dec_u64(b8) {
                                        Some((max_optimization_threads, b9)) => Some(
                                            (
                                                OptimizersConfig {
                                                    deleted_threshold_ppm,
                                                    vacuum_min_vector_number,
                                                    default_segment_number,
                                                    max_segment_size,
                                                    memmap_threshold,
                                                    indexing_threshold,
                                                    payload_indexing_threshold,
                                                    flush_interval_sec,
                                                    max_optimization_threads,
                                                },
                                                b9,
                                            ),
                                        ),
                                        None => None,
                                    },
                                    None => None,
                                },
                                None => None,
                            },
                            None => None,
                        },
                        None => None,
                    },
                    None => None,
                },
                None => None,
            },
            None => None,
        },
        None => None,
    }
}

pub proof fn lemma_dec_optcfg(c: OptimizersConfig, rest: Seq<u8>)
    ensures
        dec_optcfg(enc_optcfg(c) + rest) == Some::<(OptimizersConfig, Seq<u8>)>((c, rest)),
{
    let e1 = enc_u64(c.deleted_threshold_ppm);
    let e2 = enc_u64(c.vacuum_min_vector_number);
    let e3 = enc_u64(c.default_segment_number);
    let e4 = enc_u64(c.max_segment_size);
    let e5 = enc_u64(c.memmap_threshold);
    let e6 = enc_u64(c.indexing_threshold);
    let e7 = enc_u64(c.payload_indexing_threshold);
    let e8 = enc_u64(c.flush_interval_sec);
    let e9 = enc_u64(c.max_optimization_threads);
    let r8 = e9 + rest;
    let r7 = e8 + r8;
    let r6 = e7 + r7;
    let r5 = e6 + r6;
    let r4 = e5 + r5;
    let r3 = e4 + r4;
    let r2 = e3 + r3;
    let r1 = e2 + r2;
    lemma_app_assoc(e1 + e2 + e3 + e4 + e5 + e6 + e7 + e8, e9, rest);
    lemma_app_assoc(e1 + e2 + e3 + e4 + e5 + e6 + e7, e8, r8);
    lemma_app_assoc(e1 + e2 + e3 + e4 + e5 + e6, e7, r7);
    lemma_app_assoc(e1 + e2 + e3 + e4 + e5, e6, r6);
    lemma_app_assoc(e1 + e2 + e3 + e4, e5, r5);
    lemma_app_assoc(e1 + e2 + e3, e4, r4);
    lemma_app_assoc(e1 + e2, e3, r3);
    lemma_app_assoc(e1, e2, r2);
    assert(enc_optcfg(c) + rest == e1 + r1);
    lemma_dec_u64(c.deleted_threshold_ppm, r1);
    lemma_dec_u64(c.vacuum_min_vector_number, r2);
    lemma_dec_u64(c.default_segment_number, r3);
    lemma_dec_u64(c.max_segment_size, r4);
    lemma_dec_u64(c.memmap_threshold, r5);
    lemma_dec_u64(c.indexing_threshold, r6);
    lemma_dec_u64(c.payload_indexing_threshold, r7);
    lemma_dec_u64(c.flush_interval_sec, r8);
    lemma_dec_u64(c.max_optimization_threads, rest);
}

pub open spec fn enc_params(p: CollectionParams) -> Seq<u8> {
    enc_u64(p.vector_size) + enc_distance(p.distance) + enc_u64(p.shard_number as u64)
}

pub open spec fn dec_params(b: Seq<u8>) -> Option<(CollectionParams, Seq<u8>)> {
    match dec_u64(b) {
        Some((vector_size, b1)) => match dec_distance(b1) {
            Some((distance, b2)) => match dec_u64(b2) {
                Some((shard, b3)) => if shard <= u32::MAX as u64 {
                    Some(
                        (
                            CollectionParams { vector_size, distance, shard_number: shard as u32 },
                            b3,
                        ),
                    )
                } else {
                    None
                },
                None => None,
            },
            None => None,
        },
        None => None,
    }
}

pub proof fn lemma_dec_params(p: CollectionParams, rest: Seq<u8>)
    ensures
        dec_params(enc_params(p) + rest) == Some::<(CollectionParams, Seq<u8>)>((p, rest)),
{
    let r2 = enc_u64(p.shard_number as u64) + rest;
    let r1 = enc_distance(p.distance) + r2;
    assert(enc_params(p) + rest =~= enc_u64(p.vector_size) + r1);
    lemma_dec_u64(p.vector_size, r1);
    lemma_dec_distance(p.distance, r2);
    lemma_dec_u64(p.shard_number as u64, rest);
}

pub open spec fn enc_config(c: CollectionConfig) -> Seq<u8> {
    enc_params(c.params) + enc_hnsw(c.hnsw_config) + enc_walcfg(c.wal_config) + enc_optcfg(
        c.optimizer_config,
    )
}

pub open spec fn dec_config(b: Seq<u8>) -> Option<(CollectionConfig, Seq<u8>)> {
    match dec_params(b) {
        Some((params, b1)) => match dec_hnsw(b1) {
            Some((hnsw_config, b2)) => match dec_walcfg(b2) {
                Some((wal_config, b3)) => match dec_optcfg(b3) {
                    Some((optimizer_config, b4)) => Some(
                        (CollectionConfig { params, hnsw_config, wal_config, optimizer_config }, b4),
                    ),
                    None => None,
                },
                None => None,
            },
            None => None,
        },
        None => None,
    }
}

pub proof fn lemma_dec_config(c: CollectionConfig, rest: Seq<u8>)
    ensures
        dec_config(enc_config(c) + rest) == Some::<(CollectionConfig, Seq<u8>)>((c, rest)),
{
    let r3 = enc_optcfg(c.optimizer_config) + rest;
    let r2 = enc_walcfg(c.wal_config) + r3;
    let r1 = enc_hnsw(c.hnsw_config) + r2;
    assert(enc_config(c) + rest =~= enc_params(c.params) + r1);
    lemma_dec_params(c.params, r1);
    lemma_dec_hnsw(c.hnsw_config, r2);
    lemma_dec_walcfg(c.wal_config, r3);
    lemma_dec_optcfg(c.optimizer_config, rest);
}

pub open spec fn enc_state(s: CollectionState) -> Seq<u8> {
    enc_config(s.config)
}

pub open spec fn dec_state(b: Seq<u8>) -> Option<(CollectionState, Seq<u8>)> {
    match dec_config(b) {
        Some((config, b1)) => Some((CollectionState { config }, b1)),
        None => None,
    }
}

pub proof fn lemma_dec_state(s: CollectionState, rest: Seq<u8>)
    ensures
        dec_state(enc_state(s) + rest) == Some::<(CollectionState, Seq<u8>)>((s, rest)),
{
    lemma_dec_config(s.config, rest);
}

} // verus!

verus! {

// ------------------------------------------------------------------
// Partial configuration records and their optional wrappers.
// ------------------------------------------------------------------

pub open spec fn enc_hnsw_diff(d: HnswConfigDiff) -> Seq<u8> {
    enc_opt_u64(d.m) + enc_opt_u64(d.ef_construct) + enc_opt_u64(d.full_scan_threshold)
}

pub open spec fn dec_hnsw_diff(b: Seq<u8>) -> Option<(HnswConfigDiff, Seq<u8>)> {
    match dec_opt_u64(b) {
        Some((m, b1)) => match dec_opt_u64(b1) {
            Some((ef_construct, b2)) => match dec_opt_u64(b2) {
                Some((full_scan_threshold, b3)) => Some(
                    (HnswConfigDiff { m, ef_construct, full_scan_threshold }, b3),
                ),
                None => None,
            },
            None => None,
        },
        None => None,
    }
}

pub proof fn lemma_dec_hnsw_diff(d: HnswConfigDiff, rest: Seq<u8>)
    ensures
        dec_hnsw_diff(enc_hnsw_diff(d) + rest) == Some::<(HnswConfigDiff, Seq<u8>)>((d, rest)),
{
    let r2 = enc_opt_u64(d.full_scan_threshold) + rest;
    let r1 = enc_opt_u64(d.ef_construct) + r2;
    assert(enc_hnsw_diff(d) + rest =~= enc_opt_u64(d.m) + r1);
    lemma_dec_opt_u64(d.m, r1);
    lemma_dec_opt_u64(d.ef_construct, r2);
    lemma_dec_opt_u64(d.full_scan_threshold, rest);
}

pub open spec fn enc_wal_diff(d: WalConfigDiff) -> Seq<u8> {
    enc_opt_u64(d.wal_capacity_mb) + enc_opt_u64(d.wal_segments_ahead)
}

pub open spec fn dec_wal_diff(b: Seq<u8>) -> Option<(WalConfigDiff, Seq<u8>)> {
    match dec_opt_u64(b) {
        Some((wal_capacity_mb, b1)) => match dec_opt_u64(b1) {
            Some((wal_segments_ahead, b2)) => Some(
                (WalConfigDiff { wal_capacity_mb, wal_segments_ahead }, b2),
            ),
            None => None,
        },
        None => None,
    }
}

pub proof fn lemma_dec_wal_diff(d: WalConfigDiff, rest: Seq<u8>)
    ensures
        dec_wal_diff(enc_wal_diff(d) + rest) == Some::<(WalConfigDiff, Seq<u8>)>((d, rest)),
{
    let r1 = enc_opt_u64(d.wal_segments_ahead) + rest;
    assert(enc_wal_diff(d) + rest =~= enc_opt_u64(d.wal_capacity_mb) + r1);
    lemma_dec_opt_u64(d.wal_capacity_mb, r1);
    lemma_dec_opt_u64(d.wal_segments_ahead, rest);
}

pub open spec fn enc_opt_diff(d: OptimizersConfigDiff) -> Seq<u8> {
    enc_opt_u64(d.deleted_threshold_ppm) + enc_opt_u64(d.vacuum_min_vector_number) + enc_opt_u64(
        d.default_segment_number,
    ) + enc_opt_u64(d.max_segment_size) + enc_opt_u64(d.memmap_threshold) + enc_opt_u64(
        d.indexing_threshold,
    ) + enc_opt_u64(d.payload_indexing_threshold) + enc_opt_u64(d.flush_interval_sec)
        + enc_opt_u64(d.max_optimization_threads)
}

pub open spec fn dec_opt_diff(b: Seq<u8>) -> Option<(OptimizersConfigDiff, Seq<u8>)> {
    match dec_opt_u64(b) {
        Some((deleted_threshold_ppm, b1)) => match dec_opt_u64(b1) {
            Some((vacuum_min_vector_number, b2)) => match dec_opt_u64(b2) {
                Some((default_segment_number, b3)) => match dec_opt_u64(b3) {
                    Some((max_segment_size, b4)) => match dec_opt_u64(b4) {
                        Some((memmap_threshold, b5)) => match dec_opt_u64(b5) {
                            Some((indexing_threshold, b6)) => match dec_opt_u64(b6) {
                                Some((payload_indexing_threshold, b7)) => match dec_opt_u64(b7) {
                                    Some((flush_interval_sec, b8)) => match dec_opt_u64(b8) {
                                        Some((max_optimization_threads, b9)) => Some(
                                            (
                                                OptimizersConfigDiff {
                                                    deleted_threshold_ppm,
                                                    vacuum_min_vector_number,
                                                    default_segment_number,
                                                    max_segment_size,
                                                    memmap_threshold,
                                                    indexing_threshold,
                                                    payload_indexing_threshold,
                                                    flush_interval_sec,
                                                    max_optimization_threads,
                                                },
                                                b9,
                                            ),
                                        ),
                                        None => None,
                                    },
                                    None => None,
                                },
                                None => None,
                            },
                            None => None,
                        },
                        None => None,
                    },
                    None => None,
                },
                None => None,
            },
            None => None,
        },
        None => None,
    }
}

pub proof fn lemma_dec_opt_diff(d: OptimizersConfigDiff, rest: Seq<u8>)
    ensures
        dec_opt_diff(enc_opt_diff(d) + rest) == Some::<(OptimizersConfigDiff, Seq<u8>)>((d, rest)),
{
    let e1 = enc_opt_u64(d.deleted_threshold_ppm);
    let e2 = enc_opt_u64(d.vacuum_min_vector_number);
    let e3 = enc_opt_u64(d.default_segment_number);
    let e4 = enc_opt_u64(d.max_segment_size);
    let e5 = enc_opt_u64(d.memmap_threshold);
    let e6 = enc_opt_u64(d.indexing_threshold);
    let e7 = enc_opt_u64(d.payload_indexing_threshold);
    let e8 = enc_opt_u64(d.flush_interval_sec);
    let e9 = enc_opt_u64(d.max_optimization_threads);
    let r8 = e9 + rest;
    let r7 = e8 + r8;
    let r6 = e7 + r7;
    let r5 = e6 + r6;
    let r4 = e5 + r5;
    let r3 = e4 + r4;
    let r2 = e3 + r3;
    let r1 = e2 + r2;
    lemma_app_assoc(e1 + e2 + e3 + e4 + e5 + e6 + e7 + e8, e9, rest);
    lemma_app_assoc(e1 + e2 + e3 + e4 + e5 + e6 + e7, e8, r8);
    lemma_app_assoc(e1 + e2 + e3 + e4 + e5 + e6, e7, r7);
    lemma_app_assoc(e1 + e2 + e3 + e4 + e5, e6, r6);
    lemma_app_assoc(e1 + e2 + e3 + e4, e5, r5);
    lemma_app_assoc(e1 + e2 + e3, e4, r4);
    lemma_app_assoc(e1 + e2, e3, r3);
    lemma_app_assoc(e1, e2, r2);
    assert(enc_opt_diff(d) + rest == e1 + r1);
    lemma_dec_opt_u64(d.deleted_threshold_ppm, r1);
    lemma_dec_opt_u64(d.vacuum_min_vector_number, r2);
    lemma_dec_opt_u64(d.default_segment_number, r3);
    lemma_dec_opt_u64(d.max_segment_size, r4);
    lemma_dec_opt_u64(d.memmap_threshold, r5);
    lemma_dec_opt_u64(d.indexing_threshold, r6);
    lemma_dec_opt_u64(d.payload_indexing_threshold, r7);
    lemma_dec_opt_u64(d.flush_interval_sec, r8);
    lemma_dec_opt_u64(d.max_optimization_threads, rest);
}

pub open spec fn enc_opt_hnsw_diff(o: Option<HnswConfigDiff>) -> Seq<u8> {
    match o {
        None => enc_tag(0),
        Some(d) => enc_tag(1) + enc_hnsw_diff(d),
    }
}

pub open spec fn dec_opt_hnsw_diff(b: Seq<u8>) -> Option<(Option<HnswConfigDiff>, Seq<u8>)> {
    match dec_tag(b) {
        Some((t, r)) => if t == 0 {
            Some((None, r))
        } else if t == 1 {
            match dec_hnsw_diff(r) {
                Some((d, r2)) => Some((Some(d), r2)),
                None => None,
            }
        } else {
            None
        },
        None => None,
    }
}

pub proof fn lemma_dec_opt_hnsw_diff(o: Option<HnswConfigDiff>, rest: Seq<u8>)
    ensures
        dec_opt_hnsw_diff(enc_opt_hnsw_diff(o) + rest) == Some::<
            (Option<HnswConfigDiff>, Seq<u8>),
        >((o, rest)),
{
    match o {
        None => {
            lemma_dec_tag(0, rest);
        },
        Some(d) => {
            assert(enc_opt_hnsw_diff(o) + rest =~= enc_tag(1) + (enc_hnsw_diff(d) + rest));
            lemma_dec_tag(1, enc_hnsw_diff(d) + rest);
            lemma_dec_hnsw_diff(d, rest);
        },
    }
}

pub open spec fn enc_opt_wal_diff(o: Option<WalConfigDiff>) -> Seq<u8> {
    match o {
        None => enc_tag(0),
        Some(d) => enc_tag(1) + enc_wal_diff(d),
    }
}

pub open spec fn dec_opt_wal_diff(b: Seq<u8>) -> Option<(Option<WalConfigDiff>, Seq<u8>)> {
    match dec_tag(b) {
        Some((t, r)) => if t == 0 {
            Some((None, r))
        } else if t == 1 {
            match dec_wal_diff(r) {
                Some((d, r2)) => Some((Some(d), r2)),
                None => None,
            }
        } else {
            None
        },
        None => None,
    }
}

pub proof fn lemma_dec_opt_wal_diff(o: Option<WalConfigDiff>, rest: Seq<u8>)
    ensures
        dec_opt_wal_diff(enc_opt_wal_diff(o) + rest) == Some::<(Option<WalConfigDiff>, Seq<u8>)>(
            (o, rest),
        ),
{
    match o {
        None => {
            lemma_dec_tag(0, rest);
        },
        Some(d) => {
            assert(enc_opt_wal_diff(o) + rest =~= enc_tag(1) + (enc_wal_diff(d) + rest));
            lemma_dec_tag(1, enc_wal_diff(d) + rest);
            lemma_dec_wal_diff(d, rest);
        },
    }
}

pub open spec fn enc_opt_opt_diff(o: Option<OptimizersConfigDiff>) -> Seq<u8> {
    match o {
        None => enc_tag(0),
        Some(d) => enc_tag(1) + enc_opt_diff(d),
    }
}

pub open spec fn dec_opt_opt_diff(b: Seq<u8>) -> Option<(Option<OptimizersConfigDiff>, Seq<u8>)> {
    match dec_tag(b) {
        Some((t, r)) => if t == 0 {
            Some((None, r))
        } else if t == 1 {
            match dec_opt_diff(r) {
                Some((d, r2)) => Some((Some(d), r2)),
                None => None,
            }
        } else {
            None
        },
        None => None,
    }
}

pub proof fn lemma_dec_opt_opt_diff(o: Option<OptimizersConfigDiff>, rest: Seq<u8>)
    ensures
        dec_opt_opt_diff(enc_opt_opt_diff(o) + rest) == Some::<
            (Option<OptimizersConfigDiff>, Seq<u8>),
        >((o, rest)),
{
    match o {
        None => {
            lemma_dec_tag(0, rest);
        },
        Some(d) => {
            assert(enc_opt_opt_diff(o) + rest =~= enc_tag(1) + (enc_opt_diff(d) + rest));
            lemma_dec_tag(1, enc_opt_diff(d) + rest);
            lemma_dec_opt_diff(d, rest);
        },
    }
}

// ------------------------------------------------------------------
// Operation payloads.
// ------------------------------------------------------------------

pub open spec fn enc_create(c: CreateCollection) -> Seq<u8> {
    enc_u64(c.vector_size) + enc_distance(c.distance) + enc_u64(c.shard_number as u64)
        + enc_opt_hnsw_diff(c.hnsw_config) + enc_opt_wal_diff(c.wal_config) + enc_opt_opt_diff(
        c.optimizers_config,
    )
}

pub open spec fn dec_create(b: Seq<u8>) -> Option<(CreateCollection, Seq<u8>)> {
    match dec_u64(b) {
        Some((vector_size, b1)) => match dec_distance(b1) {
            Some((distance, b2)) => match dec_u64(b2) {
                Some((shard, b3)) => if shard <= u32::MAX as u64 {
                    match dec_opt_hnsw_diff(b3) {
                        Some((hnsw_config, b4)) => match dec_opt_wal_diff(b4) {
                            Some((wal_config, b5)) => match dec_opt_opt_diff(b5) {
                                Some((optimizers_config, b6)) => Some(
                                    (
                                        CreateCollection {
                                            vector_size,
                                            distance,
                                            shard_number: shard as u32,
                                            hnsw_config,
                                            wal_config,
                                            optimizers_config,
                                        },
                                        b6,
                                    ),
                                ),
                                None => None,
                            },
                            None => None,
                        },
                        None => None,
                    }
                } else {
                    None
                },
                None => None,
            },
            None => None,
        },
        None => None,
    }
}

pub proof fn lemma_dec_create(c: CreateCollection, rest: Seq<u8>)
    ensures
        dec_create(enc_create(c) + rest) == Some::<(CreateCollection, Seq<u8>)>((c, rest)),
{
    let e1 = enc_u64(c.vector_size);
    let e2 = enc_distance(c.distance);
    let e3 = enc_u64(c.shard_number as u64);
    let e4 = enc_opt_hnsw_diff(c.hnsw_config);
    let e5 = enc_opt_wal_diff(c.wal_config);
    let e6 = enc_opt_opt_diff(c.optimizers_config);
    let r5 = e6 + rest;
    let r4 = e5 + r5;
    let r3 = e4 + r4;
    let r2 = e3 + r3;
    let r1 = e2 + r2;
    lemma_app_assoc(e1 + e2 + e3 + e4 + e5, e6, rest);
    lemma_app_assoc(e1 + e2 + e3 + e4, e5, r5);
    lemma_app_assoc(e1 + e2 + e3, e4, r4);
    lemma_app_assoc(e1 + e2, e3, r3);
    lemma_app_assoc(e1, e2, r2);
    assert(enc_create(c) + rest == e1 + r1);
    lemma_dec_u64(c.vector_size, r1);
    lemma_dec_distance(c.distance, r2);
    lemma_dec_u64(c.shard_number as u64, r3);
    lemma_dec_opt_hnsw_diff(c.hnsw_config, r4);
    lemma_dec_opt_wal_diff(c.wal_config, r5);
    lemma_dec_opt_opt_diff(c.optimizers_config, rest);
}

pub open spec fn enc_update(u: UpdateCollection) -> Seq<u8> {
    enc_opt_opt_diff(u.optimizers_config)
}

pub open spec fn dec_update(b: Seq<u8>) -> Option<(UpdateCollection, Seq<u8>)> {
    match dec_opt_opt_diff(b) {
        Some((optimizers_config, b1)) => Some((UpdateCollection { optimizers_config }, b1)),
        None => None,
    }
}

pub proof fn lemma_dec_update(u: UpdateCollection, rest: Seq<u8>)
    ensures
        dec_update(enc_update(u) + rest) == Some::<(UpdateCollection, Seq<u8>)>((u, rest)),
{
    lemma_dec_opt_opt_diff(u.optimizers_config, rest);
}

} // verus!

verus! {

// ------------------------------------------------------------------
// Alias operations and their ordered list.
// ------------------------------------------------------------------

pub open spec fn wf_alias_op(a: AliasOperationsV) -> bool {
    match a {
        AliasOperationsV::CreateAlias { collection_name, alias_name } => wf_str(collection_name)
            && wf_str(alias_name),
        AliasOperationsV::DeleteAlias { alias_name } => wf_str(alias_name),
        AliasOperationsV::RenameAlias { old_alias_name, new_alias_name } => wf_str(old_alias_name)
            && wf_str(new_alias_name),
    }
}

pub open spec fn enc_alias_op(a: AliasOperationsV) -> Seq<u8> {
    match a {
        AliasOperationsV::CreateAlias { collection_name, alias_name } => enc_tag(0) + enc_str(
            collection_name,
        ) + enc_str(alias_name),
        AliasOperationsV::DeleteAlias { alias_name } => enc_tag(1) + enc_str(alias_name),
        AliasOperationsV::RenameAlias { old_alias_name, new_alias_name } => enc_tag(2) + enc_str(
            old_alias_name,
        ) + enc_str(new_alias_name),
    }
}

pub open spec fn dec_alias_op(b: Seq<u8>) -> Option<(AliasOperationsV, Seq<u8>)> {
    match dec_tag(b) {
        Some((t, r)) => if t == 0 {
            match dec_str(r) {
                Some((collection_name, r1)) => match dec_str(r1) {
                    Some((alias_name, r2)) => Some(
                        (AliasOperationsV::CreateAlias { collection_name, alias_name }, r2),
                    ),
                    None => None,
                },
                None => None,
            }
        } else if t == 1 {
            match dec_str(r) {
                Some((alias_name, r1)) => Some(
                    (AliasOperationsV::DeleteAlias { alias_name }, r1),
                ),
                None => None,
            }
        } else if t == 2 {
            match dec_str(r) {
                Some((old_alias_name, r1)) => match dec_str(r1) {
                    Some((new_alias_name, r2)) => Some(
                        (AliasOperationsV::RenameAlias { old_alias_name, new_alias_name }, r2),
                    ),
                    None => None,
                },
                None => None,
            }
        } else {
            None
        },
        None => None,
    }
}

pub proof fn lemma_dec_alias_op(a: AliasOperationsV, rest: Seq<u8>)
    requires
        wf_alias_op(a),
    ensures
        dec_alias_op(enc_alias_op(a) + rest) == Some::<(AliasOperationsV, Seq<u8>)>((a, rest)),
{
    match a {
        AliasOperationsV::CreateAlias { collection_name, alias_name } => {
            let r1 = enc_str(alias_name) + rest;
            let r0 = enc_str(collection_name) + r1;
            lemma_app_assoc(enc_tag(0) + enc_str(collection_name), enc_str(alias_name), rest);
            lemma_app_assoc(enc_tag(0), enc_str(collection_name), r1);
            lemma_dec_tag(0, r0);
            lemma_dec_str(collection_name, r1);
            lemma_dec_str(alias_name, rest);
        },
        AliasOperationsV::DeleteAlias { alias_name } => {
            lemma_app_assoc(enc_tag(1), enc_str(alias_name), rest);
            lemma_dec_tag(1, enc_str(alias_name) + rest);
            lemma_dec_str(alias_name, rest);
        },
        AliasOperationsV::RenameAlias { old_alias_name, new_alias_name } => {
            let r1 = enc_str(new_alias_name) + rest;
            let r0 = enc_str(old_alias_name) + r1;
            lemma_app_assoc(enc_tag(2) + enc_str(old_alias_name), enc_str(new_alias_name), rest);
            lemma_app_assoc(enc_tag(2), enc_str(old_alias_name), r1);
            lemma_dec_tag(2, r0);
            lemma_dec_str(old_alias_name, r1);
            lemma_dec_str(new_alias_name, rest);
        },
    }
}

pub open spec fn enc_alias_list(s: Seq<AliasOperationsV>) -> Seq<u8>
    decreases s.len(),
{
    if s.len() == 0 {
        Seq::empty()
    } else {
        enc_alias_op(s[0]) + enc_alias_list(s.skip(1))
    }
}

pub open spec fn dec_alias_list(b: Seq<u8>, n: nat) -> Option<(Seq<AliasOperationsV>, Seq<u8>)>
    decreases n,
{
    if n == 0 {
        Some((Seq::empty(), b))
    } else {
        match dec_alias_op(b) {
            Some((a, r)) => match dec_alias_list(r, (n - 1) as nat) {
                Some((s, r2)) => Some((seq![a] + s, r2)),
                None => None,
            },
            None => None,
        }
    }
}

pub proof fn lemma_dec_alias_list(s: Seq<AliasOperationsV>, rest: Seq<u8>)
    requires
        forall|i: int| 0 <= i < s.len() ==> wf_alias_op(#[trigger] s[i]),
    ensures
        dec_alias_list(enc_alias_list(s) + rest, s.len()) == Some::<
            (Seq<AliasOperationsV>, Seq<u8>),
        >((s, rest)),
    decreases s.len(),
{
    if s.len() == 0 {
        assert(enc_alias_list(s) + rest =~= rest);
        assert(dec_alias_list(rest, 0) == Some::<(Seq<AliasOperationsV>, Seq<u8>)>(
            (Seq::empty(), rest),
        ));
        assert(s =~= Seq::<AliasOperationsV>::empty());
    } else {
        lemma_app_assoc(enc_alias_op(s[0]), enc_alias_list(s.skip(1)), rest);
        lemma_dec_alias_op(s[0], enc_alias_list(s.skip(1)) + rest);
        assert(forall|i: int| 0 <= i < s.skip(1).len() ==> wf_alias_op(#[trigger] s.skip(1)[i]));
        lemma_dec_alias_list(s.skip(1), rest);
        assert(seq![s[0]] + s.skip(1) =~= s);
    }
}

// ------------------------------------------------------------------
// Metadata operations and the consensus payload.
// ------------------------------------------------------------------

pub open spec fn wf_meta_op(v: MetaOpV) -> bool {
    match v {
        MetaOpV::CreateCollection { collection_name, .. } => wf_str(collection_name),
        MetaOpV::UpdateCollection { collection_name, .. } => wf_str(collection_name),
        MetaOpV::DeleteCollection { collection_name } => wf_str(collection_name),
        MetaOpV::ChangeAliases { actions } => actions.len() <= u64::MAX && forall|i: int|
            0 <= i < actions.len() ==> wf_alias_op(#[trigger] actions[i]),
    }
}

pub open spec fn enc_meta_op(v: MetaOpV) -> Seq<u8> {
    match v {
        MetaOpV::CreateCollection { collection_name, create_collection } => enc_tag(0) + enc_str(
            collection_name,
        ) + enc_create(create_collection),
        MetaOpV::UpdateCollection { collection_name, update_collection } => enc_tag(1) + enc_str(
            collection_name,
        ) + enc_update(update_collection),
        MetaOpV::DeleteCollection { collection_name } => enc_tag(2) + enc_str(collection_name),
        MetaOpV::ChangeAliases { actions } => enc_tag(3) + enc_u64(actions.len() as u64)
            + enc_alias_list(actions),
    }
}

pub open spec fn dec_meta_op(b: Seq<u8>) -> Option<(MetaOpV, Seq<u8>)> {
    match dec_tag(b) {
        Some((t, r)) => if t == 0 {
            match dec_str(r) {
                Some((collection_name, r1)) => match dec_create(r1) {
                    Some((create_collection, r2)) => Some(
                        (MetaOpV::CreateCollection { collection_name, create_collection }, r2),
                    ),
                    None => None,
                },
                None => None,
            }
        } else if t == 1 {
            match dec_str(r) {
                Some((collection_name, r1)) => match dec_update(r1) {
                    Some((update_collection, r2)) => Some(
                        (MetaOpV::UpdateCollection { collection_name, update_collection }, r2),
                    ),
                    None => None,
                },
                None => None,
            }
        } else if t == 2 {
            match dec_str(r) {
                Some((collection_name, r1)) => Some(
                    (MetaOpV::DeleteCollection { collection_name }, r1),
                ),
                None => None,
            }
        } else if t == 3 {
            match dec_u64(r) {
                Some((n, r1)) => match dec_alias_list(r1, n as nat) {
                    Some((actions, r2)) => Some((MetaOpV::ChangeAliases { actions }, r2)),
                    None => None,
                },
                None => None,
            }
        } else {
            None
        },
        None => None,
    }
}

pub proof fn lemma_dec_meta_op(v: MetaOpV, rest: Seq<u8>)
    requires
        wf_meta_op(v),
    ensures
        dec_meta_op(enc_meta_op(v) + rest) == Some::<(MetaOpV, Seq<u8>)>((v, rest)),
{
    match v {
        MetaOpV::CreateCollection { collection_name, create_collection } => {
            let r1 = enc_create(create_collection) + rest;
            let r0 = enc_str(collection_name) + r1;
            lemma_app_assoc(enc_tag(0) + enc_str(collection_name), enc_create(create_collection), rest);
            lemma_app_assoc(enc_tag(0), enc_str(collection_name), r1);
            lemma_dec_tag(0, r0);
            lemma_dec_str(collection_name, r1);
            lemma_dec_create(create_collection, rest);
        },
        MetaOpV::UpdateCollection { collection_name, update_collection } => {
            let r1 = enc_update(update_collection) + rest;
            let r0 = enc_str(collection_name) + r1;
            lemma_app_assoc(enc_tag(1) + enc_str(collection_name), enc_update(update_collection), rest);
            lemma_app_assoc(enc_tag(1), enc_str(collection_name), r1);
            lemma_dec_tag(1, r0);
            lemma_dec_str(collection_name, r1);
            lemma_dec_update(update_collection, rest);
        },
        MetaOpV::DeleteCollection { collection_name } => {
            lemma_app_assoc(enc_tag(2), enc_str(collection_name), rest);
            lemma_dec_tag(2, enc_str(collection_name) + rest);
            lemma_dec_str(collection_name, rest);
        },
        MetaOpV::ChangeAliases { actions } => {
            let n = actions.len() as u64;
            let r1 = enc_alias_list(actions) + rest;
            let r0 = enc_u64(n) + r1;
            lemma_app_assoc(enc_tag(3) + enc_u64(n), enc_alias_list(actions), rest);
            lemma_app_assoc(enc_tag(3), enc_u64(n), r1);
            lemma_dec_tag(3, r0);
            lemma_dec_u64(n, r1);
            lemma_dec_alias_list(actions, rest);
        },
    }
}

pub open spec fn wf_consensus_op(v: ConsensusOpV) -> bool {
    match v {
        ConsensusOpV::CollectionMeta { op } => wf_meta_op(op),
        ConsensusOpV::AddPeer { uri, .. } => wf_str(uri),
    }
}

pub open spec fn enc_consensus_op(v: ConsensusOpV) -> Seq<u8> {
    match v {
        ConsensusOpV::CollectionMeta { op } => enc_tag(0) + enc_meta_op(op),
        ConsensusOpV::AddPeer { peer_id, uri } => enc_tag(1) + enc_u64(peer_id) + enc_str(uri),
    }
}

pub open spec fn dec_consensus_op(b: Seq<u8>) -> Option<(ConsensusOpV, Seq<u8>)> {
    match dec_tag(b) {
        Some((t, r)) => if t == 0 {
            match dec_meta_op(r) {
                Some((op, r1)) => Some((ConsensusOpV::CollectionMeta { op }, r1)),
                None => None,
            }
        } else if t == 1 {
            match dec_u64(r) {
                Some((peer_id, r1)) => match dec_str(r1) {
                    Some((uri, r2)) => Some((ConsensusOpV::AddPeer { peer_id, uri }, r2)),
                    None => None,
                },
                None => None,
            }
        } else {
            None
        },
        None => None,
    }
}

pub proof fn lemma_dec_consensus_op(v: ConsensusOpV, rest: Seq<u8>)
    requires
        wf_consensus_op(v),
    ensures
        dec_consensus_op(enc_consensus_op(v) + rest) == Some::<(ConsensusOpV, Seq<u8>)>((v, rest)),
{
    match v {
        ConsensusOpV::CollectionMeta { op } => {
            lemma_app_assoc(enc_tag(0), enc_meta_op(op), rest);
            lemma_dec_tag(0, enc_meta_op(op) + rest);
            lemma_dec_meta_op(op, rest);
        },
        ConsensusOpV::AddPeer { peer_id, uri } => {
            let r1 = enc_str(uri) + rest;
            let r0 = enc_u64(peer_id) + r1;
            lemma_app_assoc(enc_tag(1) + enc_u64(peer_id), enc_str(uri), rest);
            lemma_app_assoc(enc_tag(1), enc_u64(peer_id), r1);
            lemma_dec_tag(1, r0);
            lemma_dec_u64(peer_id, r1);
            lemma_dec_str(uri, rest);
        },
    }
}

} // verus!

verus! {

// ------------------------------------------------------------------
// Snapshot payload: three length-prefixed pair lists.
// ------------------------------------------------------------------

pub open spec fn enc_coll_pair(p: (Seq<char>, CollectionState)) -> Seq<u8> {
    enc_str(p.0) + enc_state(p.1)
}

pub open spec fn dec_coll_pair(b: Seq<u8>) -> Option<((Seq<char>, CollectionState), Seq<u8>)> {
    match dec_str(b) {
        Some((name, r1)) => match dec_state(r1) {
            Some((st, r2)) => Some(((name, st), r2)),
            None => None,
        },
        None => None,
    }
}

pub proof fn lemma_dec_coll_pair(p: (Seq<char>, CollectionState), rest: Seq<u8>)
    requires
        wf_str(p.0),
    ensures
        dec_coll_pair(enc_coll_pair(p) + rest) == Some::<((Seq<char>, CollectionState), Seq<u8>)>(
            (p, rest),
        ),
{
    lemma_app_assoc(enc_str(p.0), enc_state(p.1), rest);
    lemma_dec_str(p.0, enc_state(p.1) + rest);
    lemma_dec_state(p.1, rest);
}

pub open spec fn enc_coll_pairs(s: Seq<(Seq<char>, CollectionState)>) -> Seq<u8>
    decreases s.len(),
{
    if s.len() == 0 {
        Seq::empty()
    } else {
        enc_coll_pair(s[0]) + enc_coll_pairs(s.skip(1))
    }
}

pub open spec fn dec_coll_pairs(b: Seq<u8>, n: nat) -> Option<
    (Seq<(Seq<char>, CollectionState)>, Seq<u8>),
>
    decreases n,
{
    if n == 0 {
        Some((Seq::empty(), b))
    } else {
        match dec_coll_pair(b) {
            Some((p, r)) => match dec_coll_pairs(r, (n - 1) as nat) {
                Some((s, r2)) => Some((seq![p] + s, r2)),
                None => None,
            },
            None => None,
        }
    }
}

#[verifier::spinoff_prover]
#[verifier::rlimit(60)]
pub proof fn lemma_dec_coll_pairs(s: Seq<(Seq<char>, CollectionState)>, rest: Seq<u8>)
    requires
        forall|i: int| 0 <= i < s.len() ==> wf_str(#[trigger] s[i].0),
    ensures
        dec_coll_pairs(enc_coll_pairs(s) + rest, s.len()) == Some::<
            (Seq<(Seq<char>, CollectionState)>, Seq<u8>),
        >((s, rest)),
    decreases s.len(),
{
    if s.len() == 0 {
        assert(enc_coll_pairs(s) + rest =~= rest);
        assert(s =~= Seq::<(Seq<char>, CollectionState)>::empty());
    } else {
        lemma_app_assoc(enc_coll_pair(s[0]), enc_coll_pairs(s.skip(1)), rest);
        lemma_dec_coll_pair(s[0], enc_coll_pairs(s.skip(1)) + rest);
        assert(forall|i: int| 0 <= i < s.skip(1).len() ==> wf_str(#[trigger] s.skip(1)[i].0));
        lemma_dec_coll_pairs(s.skip(1), rest);
        assert(seq![s[0]] + s.skip(1) =~= s);
    }
}

pub open spec fn enc_alias_pair(p: (Seq<char>, Seq<char>)) -> Seq<u8> {
    enc_str(p.0) + enc_str(p.1)
}

pub open spec fn dec_alias_pair(b: Seq<u8>) -> Option<((Seq<char>, Seq<char>), Seq<u8>)> {
    match dec_str(b) {
        Some((a, r1)) => match dec_str(r1) {
            Some((c, r2)) => Some(((a, c), r2)),
            None => None,
        },
        None => None,
    }
}

pub proof fn lemma_dec_alias_pair(p: (Seq<char>, Seq<char>), rest: Seq<u8>)
    requires
        wf_str(p.0),
        wf_str(p.1),
    ensures
        dec_alias_pair(enc_alias_pair(p) + rest) == Some::<((Seq<char>, Seq<char>), Seq<u8>)>(
            (p, rest),
        ),
{
    lemma_app_assoc(enc_str(p.0), enc_str(p.1), rest);
    lemma_dec_str(p.0, enc_str(p.1) + rest);
    lemma_dec_str(p.1, rest);
}

pub open spec fn enc_alias_pairs(s: Seq<(Seq<char>, Seq<char>)>) -> Seq<u8>
    decreases s.len(),
{
    if s.len() == 0 {
        Seq::empty()
    } else {
        enc_alias_pair(s[0]) + enc_alias_pairs(s.skip(1))
    }
}

pub open spec fn dec_alias_pairs(b: Seq<u8>, n: nat) -> Option<
    (Seq<(Seq<char>, Seq<char>)>, Seq<u8>),
>
    decreases n,
{
    if n == 0 {
        Some((Seq::empty(), b))
    } else {
        match dec_alias_pair(b) {
            Some((p, r)) => match dec_alias_pairs(r, (n - 1) as nat) {
                Some((s, r2)) => Some((seq![p] + s, r2)),
                None => None,
            },
            None => None,
        }
    }
}

pub proof fn lemma_dec_alias_pairs(s: Seq<(Seq<char>, Seq<char>)>, rest: Seq<u8>)
    requires
        forall|i: int| 0 <= i < s.len() ==> wf_str(#[trigger] s[i].0) && wf_str(s[i].1),
    ensures
        dec_alias_pairs(enc_alias_pairs(s) + rest, s.len()) == Some::<
            (Seq<(Seq<char>, Seq<char>)>, Seq<u8>),
        >((s, rest)),
    decreases s.len(),
{
    if s.len() == 0 {
        assert(enc_alias_pairs(s) + rest =~= rest);
        assert(s =~= Seq::<(Seq<char>, Seq<char>)>::empty());
    } else {
        lemma_app_assoc(enc_alias_pair(s[0]), enc_alias_pairs(s.skip(1)), rest);
        lemma_dec_alias_pair(s[0], enc_alias_pairs(s.skip(1)) + rest);
        assert(forall|i: int|
            0 <= i < s.skip(1).len() ==> wf_str(#[trigger] s.skip(1)[i].0) && wf_str(
                s.skip(1)[i].1,
            ));
        lemma_dec_alias_pairs(s.skip(1), rest);
        assert(seq![s[0]] + s.skip(1) =~= s);
    }
}

pub open spec fn enc_addr_pair(p: (u64, Seq<char>)) -> Seq<u8> {
    enc_u64(p.0) + enc_str(p.1)
}

pub open spec fn dec_addr_pair(b: Seq<u8>) -> Option<((u64, Seq<char>), Seq<u8>)> {
    match dec_u64(b) {
        Some((id, r1)) => match dec_str(r1) {
            Some((uri, r2)) => Some(((id, uri), r2)),
            None => None,
        },
        None => None,
    }
}

pub proof fn lemma_dec_addr_pair(p: (u64, Seq<char>), rest: Seq<u8>)
    requires
        wf_str(p.1),
    ensures
        dec_addr_pair(enc_addr_pair(p) + rest) == Some::<((u64, Seq<char>), Seq<u8>)>((p, rest)),
{
    lemma_app_assoc(enc_u64(p.0), enc_str(p.1), rest);
    lemma_dec_u64(p.0, enc_str(p.1) + rest);
    lemma_dec_str(p.1, rest);
}

pub open spec fn enc_addr_pairs(s: Seq<(u64, Seq<char>)>) -> Seq<u8>
    decreases s.len(),
{
    if s.len() == 0 {
        Seq::empty()
    } else {
        enc_addr_pair(s[0]) + enc_addr_pairs(s.skip(1))
    }
}

pub open spec fn dec_addr_pairs(b: Seq<u8>, n: nat) -> Option<(Seq<(u64, Seq<char>)>, Seq<u8>)>
    decreases n,
{
    if n == 0 {
        Some((Seq::empty(), b))
    } else {
        match dec_addr_pair(b) {
            Some((p, r)) => match dec_addr_pairs(r, (n - 1) as nat) {
                Some((s, r2)) => Some((seq![p] + s, r2)),
                None => None,
            },
            None => None,
        }
    }
}

pub proof fn lemma_dec_addr_pairs(s: Seq<(u64, Seq<char>)>, rest: Seq<u8>)
    requires
        forall|i: int| 0 <= i < s.len() ==> wf_str(#[trigger] s[i].1),
    ensures
        dec_addr_pairs(enc_addr_pairs(s) + rest, s.len()) == Some::<
            (Seq<(u64, Seq<char>)>, Seq<u8>),
        >((s, rest)),
    decreases s.len(),
{
    if s.len() == 0 {
        assert(enc_addr_pairs(s) + rest =~= rest);
        assert(s =~= Seq::<(u64, Seq<char>)>::empty());
    } else {
        lemma_app_assoc(enc_addr_pair(s[0]), enc_addr_pairs(s.skip(1)), rest);
        lemma_dec_addr_pair(s[0], enc_addr_pairs(s.skip(1)) + rest);
        assert(forall|i: int| 0 <= i < s.skip(1).len() ==> wf_str(#[trigger] s.skip(1)[i].1));
        lemma_dec_addr_pairs(s.skip(1), rest);
        assert(seq![s[0]] + s.skip(1) =~= s);
    }
}

pub open spec fn wf_snapshot(s: StateSnapshotV) -> bool {
    &&& s.collections.len() <= u64::MAX
    &&& s.aliases.len() <= u64::MAX
    &&& s.address_by_id.len() <= u64::MAX
    &&& forall|i: int| 0 <= i < s.collections.len() ==> wf_str(#[trigger] s.collections[i].0)
    &&& forall|i: int|
        0 <= i < s.aliases.len() ==> wf_str(#[trigger] s.aliases[i].0) && wf_str(s.aliases[i].1)
    &&& forall|i: int| 0 <= i < s.address_by_id.len() ==> wf_str(#[trigger] s.address_by_id[i].1)
}

pub open spec fn enc_snapshot(s: StateSnapshotV) -> Seq<u8> {
    enc_u64(s.collections.len() as u64) + enc_coll_pairs(s.collections) + enc_u64(
        s.aliases.len() as u64,
    ) + enc_alias_pairs(s.aliases) + enc_u64(s.address_by_id.len() as u64) + enc_addr_pairs(
        s.address_by_id,
    )
}

pub open spec fn dec_snapshot(b: Seq<u8>) -> Option<(StateSnapshotV, Seq<u8>)> {
    match dec_u64(b) {
        Some((n1, b1)) => match dec_coll_pairs(b1, n1 as nat) {
            Some((collections, b2)) => match dec_u64(b2) {
                Some((n2, b3)) => match dec_alias_pairs(b3, n2 as nat) {
                    Some((aliases, b4)) => match dec_u64(b4) {
                        Some((n3, b5)) => match dec_addr_pairs(b5, n3 as nat) {
                            Some((address_by_id, b6)) => Some(
                                (StateSnapshotV { collections, aliases, address_by_id }, b6),
                            ),
                            None => None,
                        },
                        None => None,
                    },
                    None => None,
                },
                None => None,
            },
            None => None,
        },
        None => None,
    }
}

pub proof fn lemma_dec_snapshot(s: StateSnapshotV, rest: Seq<u8>)
    requires
        wf_snapshot(s),
    ensures
        dec_snapshot(enc_snapshot(s) + rest) == Some::<(StateSnapshotV, Seq<u8>)>((s, rest)),
{
    let e1 = enc_u64(s.collections.len() as u64);
    let e2 = enc_coll_pairs(s.collections);
    let e3 = enc_u64(s.aliases.len() as u64);
    let e4 = enc_alias_pairs(s.aliases);
    let e5 = enc_u64(s.address_by_id.len() as u64);
    let e6 = enc_addr_pairs(s.address_by_id);
    let r5 = e6 + rest;
    let r4 = e5 + r5;
    let r3 = e4 + r4;
    let r2 = e3 + r3;
    let r1 = e2 + r2;
    lemma_app_assoc(e1 + e2 + e3 + e4 + e5, e6, rest);
    lemma_app_assoc(e1 + e2 + e3 + e4, e5, r5);
    lemma_app_assoc(e1 + e2 + e3, e4, r4);
    lemma_app_assoc(e1 + e2, e3, r3);
    lemma_app_assoc(e1, e2, r2);
    assert(enc_snapshot(s) + rest == e1 + r1);
    lemma_dec_u64(s.collections.len() as u64, r1);
    lemma_dec_coll_pairs(s.collections, r2);
    lemma_dec_u64(s.aliases.len() as u64, r3);
    lemma_dec_alias_pairs(s.aliases, r4);
    lemma_dec_u64(s.address_by_id.len() as u64, r5);
    lemma_dec_addr_pairs(s.address_by_id, rest);
}

// ------------------------------------------------------------------
// Consensus log entries.
// ------------------------------------------------------------------

pub open spec fn wf_entry(e: ConsensusEntryV) -> bool {
    e.data.len() <= u64::MAX
}

pub open spec fn enc_entry(e: ConsensusEntryV) -> Seq<u8> {
    enc_kind(e.entry_type) + enc_u64(e.term) + enc_u64(e.index) + enc_bytes(e.data)
}

pub open spec fn dec_entry(b: Seq<u8>) -> Option<(ConsensusEntryV, Seq<u8>)> {
    match dec_kind(b) {
        Some((entry_type, b1)) => match dec_u64(b1) {
            Some((term, b2)) => match dec_u64(b2) {
                Some((index, b3)) => match dec_bytes(b3) {
                    Some((data, b4)) => Some(
                        (ConsensusEntryV { entry_type, term, index, data }, b4),
                    ),
                    None => None,
                },
                None => None,
            },
            None => None,
        },
        None => None,
    }
}

pub proof fn lemma_dec_entry(e: ConsensusEntryV, rest: Seq<u8>)
    requires
        wf_entry(e),
    ensures
        dec_entry(enc_entry(e) + rest) == Some::<(ConsensusEntryV, Seq<u8>)>((e, rest)),
{
    let e1 = enc_kind(e.entry_type);
    let e2 = enc_u64(e.term);
    let e3 = enc_u64(e.index);
    let e4 = enc_bytes(e.data);
    let r3 = e4 + rest;
    let r2 = e3 + r3;
    let r1 = e2 + r2;
    lemma_app_assoc(e1 + e2 + e3, e4, rest);
    lemma_app_assoc(e1 + e2, e3, r3);
    lemma_app_assoc(e1, e2, r2);
    assert(enc_entry(e) + rest == e1 + r1);
    lemma_dec_kind(e.entry_type, r1);
    lemma_dec_u64(e.term, r2);
    lemma_dec_u64(e.index, r3);
    lemma_dec_bytes(e.data, rest);
}

// ------------------------------------------------------------------
// Whole-message decoding and the round-trip laws.
// ------------------------------------------------------------------

/// Decoding of a whole buffer: the payload must use every byte.
pub open spec fn decode_op_full(b: Seq<u8>) -> Option<ConsensusOpV> {
    match dec_consensus_op(b) {
        Some((v, r)) => if r.len() == 0 {
            Some(v)
        } else {
            None
        },
        None => None,
    }
}

pub open spec fn decode_snapshot_full(b: Seq<u8>) -> Option<StateSnapshotV> {
    match dec_snapshot(b) {
        Some((v, r)) => if r.len() == 0 {
            Some(v)
        } else {
            None
        },
        None => None,
    }
}

pub open spec fn decode_entry_full(b: Seq<u8>) -> Option<ConsensusEntryV> {
    match dec_entry(b) {
        Some((v, r)) => if r.len() == 0 {
            Some(v)
        } else {
            None
        },
        None => None,
    }
}

/// Law: decoding inverts encoding for every consensus operation.
pub proof fn law_consensus_op_round_trip(v: ConsensusOpV)
    requires
        wf_consensus_op(v),
    ensures
        decode_op_full(enc_consensus_op(v)) == Some(v),
{
    lemma_dec_consensus_op(v, Seq::empty());
    assert(enc_consensus_op(v) + Seq::<u8>::empty() =~= enc_consensus_op(v));
}

/// Law: decoding inverts encoding for every state snapshot.
pub proof fn law_snapshot_round_trip(s: StateSnapshotV)
    requires
        wf_snapshot(s),
    ensures
        decode_snapshot_full(enc_snapshot(s)) == Some(s),
{
    lemma_dec_snapshot(s, Seq::empty());
    assert(enc_snapshot(s) + Seq::<u8>::empty() =~= enc_snapshot(s));
}

/// Law: decoding inverts encoding for every consensus log entry.
pub proof fn law_entry_round_trip(e: ConsensusEntryV)
    requires
        wf_entry(e),
    ensures
        decode_entry_full(enc_entry(e)) == Some(e),
{
    lemma_dec_entry(e, Seq::empty());
    assert(enc_entry(e) + Seq::<u8>::empty() =~= enc_entry(e));
}

/// Law: the encoding is injective — equal bytes mean equal operations.
pub proof fn law_consensus_op_encoding_injective(a: ConsensusOpV, b: ConsensusOpV)
    requires
        wf_consensus_op(a),
        wf_consensus_op(b),
        enc_consensus_op(a) == enc_consensus_op(b),
    ensures
        a == b,
{
    law_consensus_op_round_trip(a);
    law_consensus_op_round_trip(b);
}

} // verus!

verus! {

use crate::ops::AliasOperations;
use crate::ops::ChangeAliasesOperation;
use crate::ops::CollectionMetaOperations;
use crate::ops::ConsensusEntry;
use crate::ops::ConsensusOperations;
use crate::ops::CreateCollectionOperation;
use crate::ops::DeleteCollectionOperation;
use crate::ops::StateSnapshot;
use crate::ops::UpdateCollectionOperation;

// ------------------------------------------------------------------
// Executable encoders.
// ------------------------------------------------------------------

/// Relies on `String::from_utf8`: it accepts exactly the valid UTF-8 byte
/// strings and decodes them to the characters they encode.
#[verifier::external_body]
fn string_from_utf8(bytes: Vec<u8>) -> (r: Option<String>)
    ensures
        r is Some <==> valid_utf8(bytes@),
        r matches Some(s) ==> s@ == decode_utf8(bytes@),
{
    String::from_utf8(bytes).ok()
}

fn w_u64(out: &mut Vec<u8>, x: u64)
    ensures
        final(out)@ == old(out)@ + enc_u64(x),
{
    let mut b = u64_to_le_bytes(x);
    out.append(&mut b);
}

fn w_tag(out: &mut Vec<u8>, t: u8)
    ensures
        final(out)@ == old(out)@ + enc_tag(t),
{
    out.push(t);
    proof {
        assert(old(out)@.push(t) =~= old(out)@ + enc_tag(t));
    }
}

fn w_bytes(out: &mut Vec<u8>, data: &[u8])
    ensures
        final(out)@ == old(out)@ + enc_bytes(data@),
        data@.len() <= u64::MAX,
{
    w_u64(out, data.len() as u64);
    let mut tmp = slice_to_vec(data);
    out.append(&mut tmp);
    proof {
        lemma_app_assoc(old(out)@, enc_u64(data@.len() as u64), data@);
    }
}

fn w_str(out: &mut Vec<u8>, s: &String)
    ensures
        final(out)@ == old(out)@ + enc_str(s@),
        wf_str(s@),
{
    w_bytes(out, s.as_str().as_bytes());
}

fn w_opt_u64(out: &mut Vec<u8>, o: &Option<u64>)
    ensures
        final(out)@ == old(out)@ + enc_opt_u64(*o),
{
    match o {
        None => w_tag(out, 0),
        Some(x) => {
            w_tag(out, 1);
            w_u64(out, *x);
            proof {
                lemma_app_assoc(old(out)@, enc_tag(1), enc_u64(*x));
            }
        },
    }
}

fn w_distance(out: &mut Vec<u8>, d: &Distance)
    ensures
        final(out)@ == old(out)@ + enc_distance(*d),
{
    match d {
        Distance::Cosine => w_tag(out, 0),
        Distance::Euclid => w_tag(out, 1),
        Distance::Dot => w_tag(out, 2),
    }
}

fn w_kind(out: &mut Vec<u8>, k: &EntryKind)
    ensures
        final(out)@ == old(out)@ + enc_kind(*k),
{
    match k {
        EntryKind::Normal => w_tag(out, 0),
        EntryKind::ConfChangeV2 => w_tag(out, 1),
    }
}

fn w_hnsw(out: &mut Vec<u8>, c: &HnswConfig)
    ensures
        final(out)@ == old(out)@ + enc_hnsw(*c),
{
    w_u64(out, c.m);
    w_u64(out, c.ef_construct);
    w_u64(out, c.full_scan_threshold);
    proof {
        assert(final(out)@ =~= old(out)@ + enc_hnsw(*c));
    }
}

fn w_walcfg(out: &mut Vec<u8>, c: &WalConfig)
    ensures
        final(out)@ == old(out)@ + enc_walcfg(*c),
{
    w_u64(out, c.wal_capacity_mb);
    w_u64(out, c.wal_segments_ahead);
    proof {
        assert(final(out)@ =~= old(out)@ + enc_walcfg(*c));
    }
}

fn w_optcfg(out: &mut Vec<u8>, c: &OptimizersConfig)
    ensures
        final(out)@ == old(out)@ + enc_optcfg(*c),
{
    w_u64(out, c.deleted_threshold_ppm);
    w_u64(out, c.vacuum_min_vector_number);
    w_u64(out, c.default_segment_number);
    w_u64(out, c.max_segment_size);
    w_u64(out, c.memmap_threshold);
    w_u64(out, c.indexing_threshold);
    w_u64(out, c.payload_indexing_threshold);
    w_u64(out, c.flush_interval_sec);
    w_u64(out, c.max_optimization_threads);
    proof {
        assert(final(out)@ =~= old(out)@ + enc_optcfg(*c));
    }
}

fn w_params(out: &mut Vec<u8>, p: &CollectionParams)
    ensures
        final(out)@ == old(out)@ + enc_params(*p),
{
    w_u64(out, p.vector_size);
    w_distance(out, &p.distance);
    w_u64(out, p.shard_number as u64);
    proof {
        assert(final(out)@ =~= old(out)@ + enc_params(*p));
    }
}

fn w_config(out: &mut Vec<u8>, c: &CollectionConfig)
    ensures
        final(out)@ == old(out)@ + enc_config(*c),
{
    w_params(out, &c.params);
    w_hnsw(out, &c.hnsw_config);
    w_walcfg(out, &c.wal_config);
    w_optcfg(out, &c.optimizer_config);
    proof {
        assert(final(out)@ =~= old(out)@ + enc_config(*c));
    }
}

fn w_state(out: &mut Vec<u8>, s: &CollectionState)
    ensures
        final(out)@ == old(out)@ + enc_state(*s),
{
    w_config(out, &s.config);
}

fn w_hnsw_diff(out: &mut Vec<u8>, d: &HnswConfigDiff)
    ensures
        final(out)@ == old(out)@ + enc_hnsw_diff(*d),
{
    w_opt_u64(out, &d.m);
    w_opt_u64(out, &d.ef_construct);
    w_opt_u64(out, &d.full_scan_threshold);
    proof {
        assert(final(out)@ =~= old(out)@ + enc_hnsw_diff(*d));
    }
}

fn w_wal_diff(out: &mut Vec<u8>, d: &WalConfigDiff)
    ensures
        final(out)@ == old(out)@ + enc_wal_diff(*d),
{
    w_opt_u64(out, &d.wal_capacity_mb);
    w_opt_u64(out, &d.wal_segments_ahead);
    proof {
        assert(final(out)@ =~= old(out)@ + enc_wal_diff(*d));
    }
}

fn w_opt_diff(out: &mut Vec<u8>, d: &OptimizersConfigDiff)
    ensures
        final(out)@ == old(out)@ + enc_opt_diff(*d),
{
    w_opt_u64(out, &d.deleted_threshold_ppm);
    w_opt_u64(out, &d.vacuum_min_vector_number);
    w_opt_u64(out, &d.default_segment_number);
    w_opt_u64(out, &d.max_segment_size);
    w_opt_u64(out, &d.memmap_threshold);
    w_opt_u64(out, &d.indexing_threshold);
    w_opt_u64(out, &d.payload_indexing_threshold);
    w_opt_u64(out, &d.flush_interval_sec);
    w_opt_u64(out, &d.max_optimization_threads);
    proof {
        assert(final(out)@ =~= old(out)@ + enc_opt_diff(*d));
    }
}

fn w_opt_hnsw_diff(out: &mut Vec<u8>, o: &Option<HnswConfigDiff>)
    ensures
        final(out)@ == old(out)@ + enc_opt_hnsw_diff(*o),
{
    match o {
        None => w_tag(out, 0),
        Some(d) => {
            w_tag(out, 1);
            w_hnsw_diff(out, d);
            proof {
                lemma_app_assoc(old(out)@, enc_tag(1), enc_hnsw_diff(*d));
            }
        },
    }
}

fn w_opt_wal_diff(out: &mut Vec<u8>, o: &Option<WalConfigDiff>)
    ensures
        final(out)@ == old(out)@ + enc_opt_wal_diff(*o),
{
    match o {
        None => w_tag(out, 0),
        Some(d) => {
            w_tag(out, 1);
            w_wal_diff(out, d);
            proof {
                lemma_app_assoc(old(out)@, enc_tag(1), enc_wal_diff(*d));
            }
        },
    }
}

fn w_opt_opt_diff(out: &mut Vec<u8>, o: &Option<OptimizersConfigDiff>)
    ensures
        final(out)@ == old(out)@ + enc_opt_opt_diff(*o),
{
    match o {
        None => w_tag(out, 0),
        Some(d) => {
            w_tag(out, 1);
            w_opt_diff(out, d);
            proof {
                lemma_app_assoc(old(out)@, enc_tag(1), enc_opt_diff(*d));
            }
        },
    }
}

fn w_create(out: &mut Vec<u8>, c: &CreateCollection)
    ensures
        final(out)@ == old(out)@ + enc_create(*c),
{
    w_u64(out, c.vector_size);
    w_distance(out, &c.distance);
    w_u64(out, c.shard_number as u64);
    w_opt_hnsw_diff(out, &c.hnsw_config);
    w_opt_wal_diff(out, &c.wal_config);
    w_opt_opt_diff(out, &c.optimizers_config);
    proof {
        let e1 = enc_u64(c.vector_size);
        let e2 = enc_distance(c.distance);
        let e3 = enc_u64(c.shard_number as u64);
        let e4 = enc_opt_hnsw_diff(c.hnsw_config);
        let e5 = enc_opt_wal_diff(c.wal_config);
        let e6 = enc_opt_opt_diff(c.optimizers_config);
        lemma_app_assoc(old(out)@, e1, e2);
        lemma_app_assoc(old(out)@, e1 + e2, e3);
        lemma_app_assoc(old(out)@, e1 + e2 + e3, e4);
        lemma_app_assoc(old(out)@, e1 + e2 + e3 + e4, e5);
        lemma_app_assoc(old(out)@, e1 + e2 + e3 + e4 + e5, e6);
    }
}

fn w_update(out: &mut Vec<u8>, u: &UpdateCollection)
    ensures
        final(out)@ == old(out)@ + enc_update(*u),
{
    w_opt_opt_diff(out, &u.optimizers_config);
}

fn w_alias_op(out: &mut Vec<u8>, a: &AliasOperations)
    ensures
        final(out)@ == old(out)@ + enc_alias_op(a@),
        wf_alias_op(a@),
{
    match a {
        AliasOperations::CreateAlias { collection_name, alias_name } => {
            w_tag(out, 0);
            w_str(out, collection_name);
            w_str(out, alias_name);
            proof {
                assert(final(out)@ =~= old(out)@ + enc_alias_op(a@));
            }
        },
        AliasOperations::DeleteAlias { alias_name } => {
            w_tag(out, 1);
            w_str(out, alias_name);
            proof {
                assert(final(out)@ =~= old(out)@ + enc_alias_op(a@));
            }
        },
        AliasOperations::RenameAlias { old_alias_name, new_alias_name } => {
            w_tag(out, 2);
            w_str(out, old_alias_name);
            w_str(out, new_alias_name);
            proof {
                assert(final(out)@ =~= old(out)@ + enc_alias_op(a@));
            }
        },
    }
}

} // verus!

verus! {

fn w_alias_list(out: &mut Vec<u8>, actions: &Vec<AliasOperations>)
    ensures
        final(out)@ == old(out)@ + enc_alias_list(
            actions@.map_values(|a: AliasOperations| a@),
        ),
        forall|i: int| 0 <= i < actions@.len() ==> wf_alias_op(#[trigger] actions@[i]@),
{
    let ghost s = actions@.map_values(|a: AliasOperations| a@);
    let n = actions.len();
    proof {
        assert(s.skip(0) =~= s);
    }
    let mut i: usize = 0;
    while i < n
        invariant
            n == actions@.len(),
            s == actions@.map_values(|a: AliasOperations| a@),
            i <= n,
            old(out)@ + enc_alias_list(s) == out@ + enc_alias_list(s.skip(i as int)),
            forall|j: int| 0 <= j < i ==> wf_alias_op(#[trigger] actions@[j]@),
        decreases n - i,
    {
        let ghost prev = out@;
        w_alias_op(out, &actions[i]);
        proof {
            assert(s.skip(i as int).skip(1) =~= s.skip(i as int + 1));
            assert(s.skip(i as int)[0] == s[i as int]);
            lemma_app_assoc(prev, enc_alias_op(s[i as int]), enc_alias_list(s.skip(i as int + 1)));
        }
        i = i + 1;
    }
    proof {
        assert(enc_alias_list(s.skip(n as int)) =~= Seq::<u8>::empty());
        assert(out@ + Seq::<u8>::empty() =~= out@);
    }
}

fn w_meta_op(out: &mut Vec<u8>, m: &CollectionMetaOperations)
    ensures
        final(out)@ == old(out)@ + enc_meta_op(m@),
        wf_meta_op(m@),
{
    match m {
        CollectionMetaOperations::CreateCollection(op) => {
            w_tag(out, 0);
            w_str(out, &op.collection_name);
            w_create(out, &op.create_collection);
            proof {
                let e1 = enc_tag(0);
                let e2 = enc_str(op.collection_name@);
                let e3 = enc_create(op.create_collection);
                lemma_app_assoc(old(out)@, e1, e2);
                lemma_app_assoc(old(out)@, e1 + e2, e3);
            }
        },
        CollectionMetaOperations::UpdateCollection(op) => {
            w_tag(out, 1);
            w_str(out, &op.collection_name);
            w_update(out, &op.update_collection);
            proof {
                let e1 = enc_tag(1);
                let e2 = enc_str(op.collection_name@);
                let e3 = enc_update(op.update_collection);
                lemma_app_assoc(old(out)@, e1, e2);
                lemma_app_assoc(old(out)@, e1 + e2, e3);
            }
        },
        CollectionMetaOperations::DeleteCollection(op) => {
            w_tag(out, 2);
            w_str(out, &op.0);
            proof {
                lemma_app_assoc(old(out)@, enc_tag(2), enc_str(op.0@));
            }
        },
        CollectionMetaOperations::ChangeAliases(op) => {
            w_tag(out, 3);
            w_u64(out, op.actions.len() as u64);
            w_alias_list(out, &op.actions);
            proof {
                let s = op.actions@.map_values(|a: AliasOperations| a@);
                let e1 = enc_tag(3);
                let e2 = enc_u64(s.len() as u64);
                let e3 = enc_alias_list(s);
                lemma_app_assoc(old(out)@, e1, e2);
                lemma_app_assoc(old(out)@, e1 + e2, e3);
            }
        },
    }
}

fn w_consensus_op(out: &mut Vec<u8>, op: &ConsensusOperations)
    ensures
        final(out)@ == old(out)@ + enc_consensus_op(op@),
        wf_consensus_op(op@),
{
    match op {
        ConsensusOperations::CollectionMeta(m) => {
            w_tag(out, 0);
            w_meta_op(out, m);
            proof {
                lemma_app_assoc(old(out)@, enc_tag(0), enc_meta_op(m@));
            }
        },
        ConsensusOperations::AddPeer(peer_id, uri) => {
            w_tag(out, 1);
            w_u64(out, *peer_id);
            w_str(out, uri);
            proof {
                let e1 = enc_tag(1);
                let e2 = enc_u64(*peer_id);
                let e3 = enc_str(uri@);
                lemma_app_assoc(old(out)@, e1, e2);
                lemma_app_assoc(old(out)@, e1 + e2, e3);
            }
        },
    }
}

/// Encodes a consensus operation for the proposal channel, the log, and
/// the correlation key.
pub fn encode_consensus_op(op: &ConsensusOperations) -> (r: Vec<u8>)
    ensures
        r@ == enc_consensus_op(op@),
        wf_consensus_op(op@),
{
    let mut out: Vec<u8> = Vec::new();
    w_consensus_op(&mut out, op);
    proof {
        assert(Seq::<u8>::empty() + enc_consensus_op(op@) =~= enc_consensus_op(op@));
    }
    out
}

fn w_coll_pair(out: &mut Vec<u8>, name: &String, st: &CollectionState)
    ensures
        final(out)@ == old(out)@ + enc_coll_pair((name@, *st)),
        wf_str(name@),
{
    w_str(out, name);
    w_state(out, st);
    proof {
        lemma_app_assoc(old(out)@, enc_str(name@), enc_state(*st));
    }
}

fn w_coll_pairs(out: &mut Vec<u8>, pairs: &Vec<(String, CollectionState)>)
    ensures
        final(out)@ == old(out)@ + enc_coll_pairs(
            pairs@.map_values(|e: (String, CollectionState)| (e.0@, e.1)),
        ),
        forall|i: int| 0 <= i < pairs@.len() ==> wf_str((#[trigger] pairs@[i]).0@),
{
    let ghost s = pairs@.map_values(|e: (String, CollectionState)| (e.0@, e.1));
    let n = pairs.len();
    proof {
        assert(s.skip(0) =~= s);
    }
    let mut i: usize = 0;
    while i < n
        invariant
            n == pairs@.len(),
            s == pairs@.map_values(|e: (String, CollectionState)| (e.0@, e.1)),
            i <= n,
            old(out)@ + enc_coll_pairs(s) == out@ + enc_coll_pairs(s.skip(i as int)),
            forall|j: int| 0 <= j < i ==> wf_str((#[trigger] pairs@[j]).0@),
        decreases n - i,
    {
        let ghost prev = out@;
        w_coll_pair(out, &pairs[i].0, &pairs[i].1);
        proof {
            assert(s.skip(i as int).skip(1) =~= s.skip(i as int + 1));
            assert(s.skip(i as int)[0] == s[i as int]);
            lemma_app_assoc(prev, enc_coll_pair(s[i as int]), enc_coll_pairs(s.skip(i as int + 1)));
        }
        i = i + 1;
    }
    proof {
        assert(enc_coll_pairs(s.skip(n as int)) =~= Seq::<u8>::empty());
        assert(out@ + Seq::<u8>::empty() =~= out@);
    }
}

fn w_alias_pairs(out: &mut Vec<u8>, pairs: &Vec<(String, String)>)
    ensures
        final(out)@ == old(out)@ + enc_alias_pairs(
            pairs@.map_values(|e: (String, String)| (e.0@, e.1@)),
        ),
        forall|i: int|
            0 <= i < pairs@.len() ==> wf_str((#[trigger] pairs@[i]).0@) && wf_str(pairs@[i].1@),
{
    let ghost s = pairs@.map_values(|e: (String, String)| (e.0@, e.1@));
    let n = pairs.len();
    proof {
        assert(s.skip(0) =~= s);
    }
    let mut i: usize = 0;
    while i < n
        invariant
            n == pairs@.len(),
            s == pairs@.map_values(|e: (String, String)| (e.0@, e.1@)),
            i <= n,
            old(out)@ + enc_alias_pairs(s) == out@ + enc_alias_pairs(s.skip(i as int)),
            forall|j: int|
                0 <= j < i ==> wf_str((#[trigger] pairs@[j]).0@) && wf_str(pairs@[j].1@),
        decreases n - i,
    {
        let ghost prev = out@;
        w_str(out, &pairs[i].0);
        w_str(out, &pairs[i].1);
        proof {
            assert(s.skip(i as int).skip(1) =~= s.skip(i as int + 1));
            assert(s.skip(i as int)[0] == s[i as int]);
            lemma_app_assoc(prev, enc_str(s[i as int].0), enc_str(s[i as int].1));
            lemma_app_assoc(
                prev,
                enc_alias_pair(s[i as int]),
                enc_alias_pairs(s.skip(i as int + 1)),
            );
        }
        i = i + 1;
    }
    proof {
        assert(enc_alias_pairs(s.skip(n as int)) =~= Seq::<u8>::empty());
        assert(out@ + Seq::<u8>::empty() =~= out@);
    }
}

fn w_addr_pairs(out: &mut Vec<u8>, pairs: &Vec<(u64, String)>)
    ensures
        final(out)@ == old(out)@ + enc_addr_pairs(
            pairs@.map_values(|e: (u64, String)| (e.0, e.1@)),
        ),
        forall|i: int| 0 <= i < pairs@.len() ==> wf_str((#[trigger] pairs@[i]).1@),
{
    let ghost s = pairs@.map_values(|e: (u64, String)| (e.0, e.1@));
    let n = pairs.len();
    proof {
        assert(s.skip(0) =~= s);
    }
    let mut i: usize = 0;
    while i < n
        invariant
            n == pairs@.len(),
            s == pairs@.map_values(|e: (u64, String)| (e.0, e.1@)),
            i <= n,
            old(out)@ + enc_addr_pairs(s) == out@ + enc_addr_pairs(s.skip(i as int)),
            forall|j: int| 0 <= j < i ==> wf_str((#[trigger] pairs@[j]).1@),
        decreases n - i,
    {
        let ghost prev = out@;
        w_u64(out, pairs[i].0);
        w_str(out, &pairs[i].1);
        proof {
            assert(s.skip(i as int).skip(1) =~= s.skip(i as int + 1));
            assert(s.skip(i as int)[0] == s[i as int]);
            lemma_app_assoc(prev, enc_u64(s[i as int].0), enc_str(s[i as int].1));
            lemma_app_assoc(
                prev,
                enc_addr_pair(s[i as int]),
                enc_addr_pairs(s.skip(i as int + 1)),
            );
        }
        i = i + 1;
    }
    proof {
        assert(enc_addr_pairs(s.skip(n as int)) =~= Seq::<u8>::empty());
        assert(out@ + Seq::<u8>::empty() =~= out@);
    }
}

/// Encodes a state snapshot as the raft snapshot payload.
pub fn encode_snapshot(s: &StateSnapshot) -> (r: Vec<u8>)
    ensures
        r@ == enc_snapshot(s@),
        wf_snapshot(s@),
{
    let mut out: Vec<u8> = Vec::new();
    w_u64(&mut out, s.collections.len() as u64);
    w_coll_pairs(&mut out, &s.collections);
    w_u64(&mut out, s.aliases.len() as u64);
    w_alias_pairs(&mut out, &s.aliases);
    w_u64(&mut out, s.address_by_id.len() as u64);
    w_addr_pairs(&mut out, &s.address_by_id);
    proof {
        let e1 = enc_u64(s@.collections.len() as u64);
        let e2 = enc_coll_pairs(s@.collections);
        let e3 = enc_u64(s@.aliases.len() as u64);
        let e4 = enc_alias_pairs(s@.aliases);
        let e5 = enc_u64(s@.address_by_id.len() as u64);
        let e6 = enc_addr_pairs(s@.address_by_id);
        let base = Seq::<u8>::empty();
        lemma_app_assoc(base, e1, e2);
        lemma_app_assoc(base, e1 + e2, e3);
        lemma_app_assoc(base, e1 + e2 + e3, e4);
        lemma_app_assoc(base, e1 + e2 + e3 + e4, e5);
        lemma_app_assoc(base, e1 + e2 + e3 + e4 + e5, e6);
        assert(base + enc_snapshot(s@) =~= enc_snapshot(s@));
    }
    out
}

/// Encodes a consensus log entry for the metadata write-ahead log.
pub fn encode_entry(e: &ConsensusEntry) -> (r: Vec<u8>)
    ensures
        r@ == enc_entry(e@),
        wf_entry(e@),
{
    let mut out: Vec<u8> = Vec::new();
    w_kind(&mut out, &e.entry_type);
    w_u64(&mut out, e.term);
    w_u64(&mut out, e.index);
    w_bytes(&mut out, e.data.as_slice());
    proof {
        let e1 = enc_kind(e.entry_type);
        let e2 = enc_u64(e.term);
        let e3 = enc_u64(e.index);
        let e4 = enc_bytes(e@.data);
        let base = Seq::<u8>::empty();
        lemma_app_assoc(base, e1, e2);
        lemma_app_assoc(base, e1 + e2, e3);
        lemma_app_assoc(base, e1 + e2 + e3, e4);
        assert(base + enc_entry(e@) =~= enc_entry(e@));
    }
    out
}

} // verus!

verus! {

// ------------------------------------------------------------------
// Executable parsers. Each mirrors the spec decoder at a buffer offset.
// ------------------------------------------------------------------

fn p_u64(buf: &[u8], pos: usize) -> (r: Option<(u64, usize)>)
    requires
        pos <= buf@.len(),
    ensures
        match r {
            Some((x, p2)) => pos <= p2 <= buf@.len() && dec_u64(buf@.skip(pos as int)) == Some(
                (x, buf@.skip(p2 as int)),
            ),
            None => dec_u64(buf@.skip(pos as int)) is None,
        },
{
    if buf.len() - pos >= 8 {
        let x = u64_from_le_bytes(slice_subrange(buf, pos, pos + 8));
        proof {
            assert(buf@.skip(pos as int).take(8) =~= buf@.subrange(pos as int, pos as int + 8));
            assert(buf@.skip(pos as int).skip(8) =~= buf@.skip(pos as int + 8));
        }
        Some((x, pos + 8))
    } else {
        None
    }
}

fn p_tag(buf: &[u8], pos: usize) -> (r: Option<(u8, usize)>)
    requires
        pos <= buf@.len(),
    ensures
        match r {
            Some((t, p2)) => pos <= p2 <= buf@.len() && dec_tag(buf@.skip(pos as int)) == Some(
                (t, buf@.skip(p2 as int)),
            ),
            None => dec_tag(buf@.skip(pos as int)) is None,
        },
{
    if buf.len() - pos >= 1 {
        let t = buf[pos];
        proof {
            assert(buf@.skip(pos as int)[0] == buf@[pos as int]);
            assert(buf@.skip(pos as int).skip(1) =~= buf@.skip(pos as int + 1));
        }
        Some((t, pos + 1))
    } else {
        None
    }
}

fn p_bytes(buf: &[u8], pos: usize) -> (r: Option<(Vec<u8>, usize)>)
    requires
        pos <= buf@.len(),
    ensures
        match r {
            Some((v, p2)) => pos <= p2 <= buf@.len() && dec_bytes(buf@.skip(pos as int)) == Some(
                (v@, buf@.skip(p2 as int)),
            ),
            None => dec_bytes(buf@.skip(pos as int)) is None,
        },
{
    match p_u64(buf, pos) {
        Some((n, p1)) => {
            if n <= (buf.len() - p1) as u64 {
                let end = p1 + (n as usize);
                let v = slice_to_vec(slice_subrange(buf, p1, end));
                proof {
                    assert(buf@.skip(p1 as int).take(n as int) =~= buf@.subrange(
                        p1 as int,
                        end as int,
                    ));
                    assert(buf@.skip(p1 as int).skip(n as int) =~= buf@.skip(end as int));
                }
                Some((v, end))
            } else {
                None
            }
        },
        None => None,
    }
}

fn p_str(buf: &[u8], pos: usize) -> (r: Option<(String, usize)>)
    requires
        pos <= buf@.len(),
    ensures
        match r {
            Some((s, p2)) => pos <= p2 <= buf@.len() && dec_str(buf@.skip(pos as int)) == Some(
                (s@, buf@.skip(p2 as int)),
            ),
            None => dec_str(buf@.skip(pos as int)) is None,
        },
{
    match p_bytes(buf, pos) {
        Some((v, p2)) => match string_from_utf8(v) {
            Some(s) => Some((s, p2)),
            None => None,
        },
        None => None,
    }
}

fn p_opt_u64(buf: &[u8], pos: usize) -> (r: Option<(Option<u64>, usize)>)
    requires
        pos <= buf@.len(),
    ensures
        match r {
            Some((o, p2)) => pos <= p2 <= buf@.len() && dec_opt_u64(buf@.skip(pos as int)) == Some(
                (o, buf@.skip(p2 as int)),
            ),
            None => dec_opt_u64(buf@.skip(pos as int)) is None,
        },
{
    match p_tag(buf, pos) {
        Some((t, p1)) => {
            if t == 0 {
                Some((None, p1))
            } else if t == 1 {
                match p_u64(buf, p1) {
                    Some((x, p2)) => Some((Some(x), p2)),
                    None => None,
                }
            } else {
                None
            }
        },
        None => None,
    }
}

fn p_distance(buf: &[u8], pos: usize) -> (r: Option<(Distance, usize)>)
    requires
        pos <= buf@.len(),
    ensures
        match r {
            Some((d, p2)) => pos <= p2 <= buf@.len() && dec_distance(buf@.skip(pos as int))
                == Some((d, buf@.skip(p2 as int))),
            None => dec_distance(buf@.skip(pos as int)) is None,
        },
{
    match p_tag(buf, pos) {
        Some((t, p1)) => {
            if t == 0 {
                Some((Distance::Cosine, p1))
            } else if t == 1 {
                Some((Distance::Euclid, p1))
            } else if t == 2 {
                Some((Distance::Dot, p1))
            } else {
                None
            }
        },
        None => None,
    }
}

fn p_kind(buf: &[u8], pos: usize) -> (r: Option<(EntryKind, usize)>)
    requires
        pos <= buf@.len(),
    ensures
        match r {
            Some((k, p2)) => pos <= p2 <= buf@.len() && dec_kind(buf@.skip(pos as int)) == Some(
                (k, buf@.skip(p2 as int)),
            ),
            None => dec_kind(buf@.skip(pos as int)) is None,
        },
{
    match p_tag(buf, pos) {
        Some((t, p1)) => {
            if t == 0 {
                Some((EntryKind::Normal, p1))
            } else if t == 1 {
                Some((EntryKind::ConfChangeV2, p1))
            } else {
                None
            }
        },
        None => None,
    }
}

fn p_hnsw(buf: &[u8], pos: usize) -> (r: Option<(HnswConfig, usize)>)
    requires
        pos <= buf@.len(),
    ensures
        match r {
            Some((c, p2)) => pos <= p2 <= buf@.len() && dec_hnsw(buf@.skip(pos as int)) == Some(
                (c, buf@.skip(p2 as int)),
            ),
            None => dec_hnsw(buf@.skip(pos as int)) is None,
        },
{
    let (m, pos) = match p_u64(buf, pos) {
        Some(v) => v,
        None => {
            return None;
        },
    };
    let (ef_construct, pos) = match p_u64(buf, pos) {
        Some(v) => v,
        None => {
            return None;
        },
    };
    let (full_scan_threshold, pos) = match p_u64(buf, pos) {
        Some(v) => v,
        None => {
            return None;
        },
    };
    Some((HnswConfig { m, ef_construct, full_scan_threshold }, pos))
}

fn p_walcfg(buf: &[u8], pos: usize) -> (r: Option<(WalConfig, usize)>)
    requires
        pos <= buf@.len(),
    ensures
        match r {
            Some((c, p2)) => pos <= p2 <= buf@.len() && dec_walcfg(buf@.skip(pos as int)) == Some(
                (c, buf@.skip(p2 as int)),
            ),
            None => dec_walcfg(buf@.skip(pos as int)) is None,
        },
{
    let (wal_capacity_mb, pos) = match p_u64(buf, pos) {
        Some(v) => v,
        None => {
            return None;
        },
    };
    let (wal_segments_ahead, pos) = match p_u64(buf, pos) {
        Some(v) => v,
        None => {
            return None;
        },
    };
    Some((WalConfig { wal_capacity_mb, wal_segments_ahead }, pos))
}

fn p_optcfg(buf: &[u8], pos: usize) -> (r: Option<(OptimizersConfig, usize)>)
    requires
        pos <= buf@.len(),
    ensures
        match r {
            Some((c, p2)) => pos <= p2 <= buf@.len() && dec_optcfg(buf@.skip(pos as int)) == Some(
                (c, buf@.skip(p2 as int)),
            ),
            None => dec_optcfg(buf@.skip(pos as int)) is None,
        },
{
    let (deleted_threshold_ppm, pos) = match p_u64(buf, pos) {
        Some(v) => v,
        None => {
            return None;
        },
    };
    let (vacuum_min_vector_number, pos) = match p_u64(buf, pos) {
        Some(v) => v,
        None => {
            return None;
        },
    };
    let (default_segment_number, pos) = match p_u64(buf, pos) {
        Some(v) => v,
        None => {
            return None;
        },
    };
    let (max_segment_size, pos) = match p_u64(buf, pos) {
        Some(v) => v,
        None => {
            return None;
        },
    };
    let (memmap_threshold, pos) = match p_u64(buf, pos) {
        Some(v) => v,
        None => {
            return None;
        },
    };
    let (indexing_threshold, pos) = match p_u64(buf, pos) {
        Some(v) => v,
        None => {
            return None;
        },
    };
    let (payload_indexing_threshold, pos) = match p_u64(buf, pos) {
        Some(v) => v,
        None => {
            return None;
        },
    };
    let (flush_interval_sec, pos) = match p_u64(buf, pos) {
        Some(v) => v,
        None => {
            return None;
        },
    };
    let (max_optimization_threads, pos) = match p_u64(buf, pos) {
        Some(v) => v,
        None => {
            return None;
        },
    };
    Some(
        (
            OptimizersConfig {
                deleted_threshold_ppm,
                vacuum_min_vector_number,
                default_segment_number,
                max_segment_size,
                memmap_threshold,
                indexing_threshold,
                payload_indexing_threshold,
                flush_interval_sec,
                max_optimization_threads,
            },
            pos,
        ),
    )
}

fn p_params(buf: &[u8], pos: usize) -> (r: Option<(CollectionParams, usize)>)
    requires
        pos <= buf@.len(),
    ensures
        match r {
            Some((c, p2)) => pos <= p2 <= buf@.len() && dec_params(buf@.skip(pos as int)) == Some(
                (c, buf@.skip(p2 as int)),
            ),
            None => dec_params(buf@.skip(pos as int)) is None,
        },
{
    let (vector_size, pos) = match p_u64(buf, pos) {
        Some(v) => v,
        None => {
            return None;
        },
    };
    let (distance, pos) = match p_distance(buf, pos) {
        Some(v) => v,
        None => {
            return None;
        },
    };
    let (shard, pos) = match p_u64(buf, pos) {
        Some(v) => v,
        None => {
            return None;
        },
    };
    if shard > u32::MAX as u64 {
        return None;
    }
    Some((CollectionParams { vector_size, distance, shard_number: shard as u32 }, pos))
}

fn p_config(buf: &[u8], pos: usize) -> (r: Option<(CollectionConfig, usize)>)
    requires
        pos <= buf@.len(),
    ensures
        match r {
            Some((c, p2)) => pos <= p2 <= buf@.len() && dec_config(buf@.skip(pos as int)) == Some(
                (c, buf@.skip(p2 as int)),
            ),
            None => dec_config(buf@.skip(pos as int)) is None,
        },
{
    let (params, pos) = match p_params(buf, pos) {
        Some(v) => v,
        None => {
            return None;
        },
    };
    let (hnsw_config, pos) = match p_hnsw(buf, pos) {
        Some(v) => v,
        None => {
            return None;
        },
    };
    let (wal_config, pos) = match p_walcfg(buf, pos) {
        Some(v) => v,
        None => {
            return None;
        },
    };
    let (optimizer_config, pos) = match p_optcfg(buf, pos) {
        Some(v) => v,
        None => {
            return None;
        },
    };
    Some((CollectionConfig { params, hnsw_config, wal_config, optimizer_config }, pos))
}

fn p_state(buf: &[u8], pos: usize) -> (r: Option<(CollectionState, usize)>)
    requires
        pos <= buf@.len(),
    ensures
        match r {
            Some((c, p2)) => pos <= p2 <= buf@.len() && dec_state(buf@.skip(pos as int)) == Some(
                (c, buf@.skip(p2 as int)),
            ),
            None => dec_state(buf@.skip(pos as int)) is None,
        },
{
    match p_config(buf, pos) {
        Some((config, p2)) => Some((CollectionState { config }, p2)),
        None => None,
    }
}

fn p_hnsw_diff(buf: &[u8], pos: usize) -> (r: Option<(HnswConfigDiff, usize)>)
    requires
        pos <= buf@.len(),
    ensures
        match r {
            Some((c, p2)) => pos <= p2 <= buf@.len() && dec_hnsw_diff(buf@.skip(pos as int))
                == Some((c, buf@.skip(p2 as int))),
            None => dec_hnsw_diff(buf@.skip(pos as int)) is None,
        },
{
    let (m, pos) = match p_opt_u64(buf, pos) {
        Some(v) => v,
        None => {
            return None;
        },
    };
    let (ef_construct, pos) = match p_opt_u64(buf, pos) {
        Some(v) => v,
        None => {
            return None;
        },
    };
    let (full_scan_threshold, pos) = match p_opt_u64(buf, pos) {
        Some(v) => v,
        None => {
            return None;
        },
    };
    Some((HnswConfigDiff { m, ef_construct, full_scan_threshold }, pos))
}

fn p_wal_diff(buf: &[u8], pos: usize) -> (r: Option<(WalConfigDiff, usize)>)
    requires
        pos <= buf@.len(),
    ensures
        match r {
            Some((c, p2)) => pos <= p2 <= buf@.len() && dec_wal_diff(buf@.skip(pos as int))
                == Some((c, buf@.skip(p2 as int))),
            None => dec_wal_diff(buf@.skip(pos as int)) is None,
        },
{
    let (wal_capacity_mb, pos) = match p_opt_u64(buf, pos) {
        Some(v) => v,
        None => {
            return None;
        },
    };
    let (wal_segments_ahead, pos) = match p_opt_u64(buf, pos) {
        Some(v) => v,
        None => {
            return None;
        },
    };
    Some((WalConfigDiff { wal_capacity_mb, wal_segments_ahead }, pos))
}

fn p_opt_diff(buf: &[u8], pos: usize) -> (r: Option<(OptimizersConfigDiff, usize)>)
    requires
        pos <= buf@.len(),
    ensures
        match r {
            Some((c, p2)) => pos <= p2 <= buf@.len() && dec_opt_diff(buf@.skip(pos as int))
                == Some((c, buf@.skip(p2 as int))),
            None => dec_opt_diff(buf@.skip(pos as int)) is None,
        },
{
    let (deleted_threshold_ppm, pos) = match p_opt_u64(buf, pos) {
        Some(v) => v,
        None => {
            return None;
        },
    };
    let (vacuum_min_vector_number, pos) = match p_opt_u64(buf, pos) {
        Some(v) => v,
        None => {
            return None;
        },
    };
    let (default_segment_number, pos) = match p_opt_u64(buf, pos) {
        Some(v) => v,
        None => {
            return None;
        },
    };
    let (max_segment_size, pos) = match p_opt_u64(buf, pos) {
        Some(v) => v,
        None => {
            return None;
        },
    };
    let (memmap_threshold, pos) = match p_opt_u64(buf, pos) {
        Some(v) => v,
        None => {
            return None;
        },
    };
    let (indexing_threshold, pos) = match p_opt_u64(buf, pos) {
        Some(v) => v,
        None => {
            return None;
        },
    };
    let (payload_indexing_threshold, pos) = match p_opt_u64(buf, pos) {
        Some(v) => v,
        None => {
            return None;
        },
    };
    let (flush_interval_sec, pos) = match p_opt_u64(buf, pos) {
        Some(v) => v,
        None => {
            return None;
        },
    };
    let (max_optimization_threads, pos) = match p_opt_u64(buf, pos) {
        Some(v) => v,
        None => {
            return None;
        },
    };
    Some(
        (
            OptimizersConfigDiff {
                deleted_threshold_ppm,
                vacuum_min_vector_number,
                default_segment_number,
                max_segment_size,
                memmap_threshold,
                indexing_threshold,
                payload_indexing_threshold,
                flush_interval_sec,
                max_optimization_threads,
            },
            pos,
        ),
    )
}

} // verus!

verus! {

fn p_opt_hnsw_diff(buf: &[u8], pos: usize) -> (r: Option<(Option<HnswConfigDiff>, usize)>)
    requires
        pos <= buf@.len(),
    ensures
        match r {
            Some((o, p2)) => pos <= p2 <= buf@.len() && dec_opt_hnsw_diff(buf@.skip(pos as int))
                == Some((o, buf@.skip(p2 as int))),
            None => dec_opt_hnsw_diff(buf@.skip(pos as int)) is None,
        },
{
    match p_tag(buf, pos) {
        Some((t, p1)) => {
            if t == 0 {
                Some((None, p1))
            } else if t == 1 {
                match p_hnsw_diff(buf, p1) {
                    Some((d, p2)) => Some((Some(d), p2)),
                    None => None,
                }
            } else {
                None
            }
        },
        None => None,
    }
}

fn p_opt_wal_diff(buf: &[u8], pos: usize) -> (r: Option<(Option<WalConfigDiff>, usize)>)
    requires
        pos <= buf@.len(),
    ensures
        match r {
            Some((o, p2)) => pos <= p2 <= buf@.len() && dec_opt_wal_diff(buf@.skip(pos as int))
                == Some((o, buf@.skip(p2 as int))),
            None => dec_opt_wal_diff(buf@.skip(pos as int)) is None,
        },
{
    match p_tag(buf, pos) {
        Some((t, p1)) => {
            if t == 0 {
                Some((None, p1))
            } else if t == 1 {
                match p_wal_diff(buf, p1) {
                    Some((d, p2)) => Some((Some(d), p2)),
                    None => None,
                }
            } else {
                None
            }
        },
        None => None,
    }
}

fn p_opt_opt_diff(buf: &[u8], pos: usize) -> (r: Option<(Option<OptimizersConfigDiff>, usize)>)
    requires
        pos <= buf@.len(),
    ensures
        match r {
            Some((o, p2)) => pos <= p2 <= buf@.len() && dec_opt_opt_diff(buf@.skip(pos as int))
                == Some((o, buf@.skip(p2 as int))),
            None => dec_opt_opt_diff(buf@.skip(pos as int)) is None,
        },
{
    match p_tag(buf, pos) {
        Some((t, p1)) => {
            if t == 0 {
                Some((None, p1))
            } else if t == 1 {
                match p_opt_diff(buf, p1) {
                    Some((d, p2)) => Some((Some(d), p2)),
                    None => None,
                }
            } else {
                None
            }
        },
        None => None,
    }
}

fn p_create(buf: &[u8], pos: usize) -> (r: Option<(CreateCollection, usize)>)
    requires
        pos <= buf@.len(),
    ensures
        match r {
            Some((c, p2)) => pos <= p2 <= buf@.len() && dec_create(buf@.skip(pos as int)) == Some(
                (c, buf@.skip(p2 as int)),
            ),
            None => dec_create(buf@.skip(pos as int)) is None,
        },
{
    let (vector_size, pos) = match p_u64(buf, pos) {
        Some(v) => v,
        None => {
            return None;
        },
    };
    let (distance, pos) = match p_distance(buf, pos) {
        Some(v) => v,
        None => {
            return None;
        },
    };
    let (shard, pos) = match p_u64(buf, pos) {
        Some(v) => v,
        None => {
            return None;
        },
    };
    if shard > u32::MAX as u64 {
        return None;
    }
    let (hnsw_config, pos) = match p_opt_hnsw_diff(buf, pos) {
        Some(v) => v,
        None => {
            return None;
        },
    };
    let (wal_config, pos) = match p_opt_wal_diff(buf, pos) {
        Some(v) => v,
        None => {
            return None;
        },
    };
    let (optimizers_config, pos) = match p_opt_opt_diff(buf, pos) {
        Some(v) => v,
        None => {
            return None;
        },
    };
    Some(
        (
            CreateCollection {
                vector_size,
                distance,
                shard_number: shard as u32,
                hnsw_config,
                wal_config,
                optimizers_config,
            },
            pos,
        ),
    )
}

fn p_update(buf: &[u8], pos: usize) -> (r: Option<(UpdateCollection, usize)>)
    requires
        pos <= buf@.len(),
    ensures
        match r {
            Some((c, p2)) => pos <= p2 <= buf@.len() && dec_update(buf@.skip(pos as int)) == Some(
                (c, buf@.skip(p2 as int)),
            ),
            None => dec_update(buf@.skip(pos as int)) is None,
        },
{
    match p_opt_opt_diff(buf, pos) {
        Some((optimizers_config, p2)) => Some((UpdateCollection { optimizers_config }, p2)),
        None => None,
    }
}

fn p_alias_op(buf: &[u8], pos: usize) -> (r: Option<(AliasOperations, usize)>)
    requires
        pos <= buf@.len(),
    ensures
        match r {
            Some((a, p2)) => pos <= p2 <= buf@.len() && dec_alias_op(buf@.skip(pos as int))
                == Some((a@, buf@.skip(p2 as int))),
            None => dec_alias_op(buf@.skip(pos as int)) is None,
        },
{
    match p_tag(buf, pos) {
        Some((t, p1)) => {
            if t == 0 {
                let (collection_name, p2) = match p_str(buf, p1) {
                    Some(v) => v,
                    None => {
                        return None;
                    },
                };
                let (alias_name, p3) = match p_str(buf, p2) {
                    Some(v) => v,
                    None => {
                        return None;
                    },
                };
                Some((AliasOperations::CreateAlias { collection_name, alias_name }, p3))
            } else if t == 1 {
                let (alias_name, p2) = match p_str(buf, p1) {
                    Some(v) => v,
                    None => {
                        return None;
                    },
                };
                Some((AliasOperations::DeleteAlias { alias_name }, p2))
            } else if t == 2 {
                let (old_alias_name, p2) = match p_str(buf, p1) {
                    Some(v) => v,
                    None => {
                        return None;
                    },
                };
                let (new_alias_name, p3) = match p_str(buf, p2) {
                    Some(v) => v,
                    None => {
                        return None;
                    },
                };
                Some((AliasOperations::RenameAlias { old_alias_name, new_alias_name }, p3))
            } else {
                None
            }
        },
        None => None,
    }
}

fn p_alias_list(buf: &[u8], pos: usize, n: u64) -> (r: Option<(Vec<AliasOperations>, usize)>)
    requires
        pos <= buf@.len(),
    ensures
        match r {
            Some((v, p2)) => pos <= p2 <= buf@.len() && dec_alias_list(
                buf@.skip(pos as int),
                n as nat,
            ) == Some((v@.map_values(|a: AliasOperations| a@), buf@.skip(p2 as int))),
            None => dec_alias_list(buf@.skip(pos as int), n as nat) is None,
        },
{
    let mut acc: Vec<AliasOperations> = Vec::new();
    let mut cur = pos;
    let mut i: u64 = 0;
    proof {
        assert(acc@.map_values(|a: AliasOperations| a@) =~= Seq::<AliasOperationsV>::empty());
    }
    while i < n
        invariant
            pos <= cur <= buf@.len(),
            i <= n,
            ({
                let full = dec_alias_list(buf@.skip(pos as int), n as nat);
                let sub = dec_alias_list(buf@.skip(cur as int), (n - i) as nat);
                match sub {
                    Some(t) => full == Some(
                        (acc@.map_values(|a: AliasOperations| a@) + t.0, t.1),
                    ),
                    None => full is None,
                }
            }),
        decreases n - i,
    {
        match p_alias_op(buf, cur) {
            Some((a, p2)) => {
                proof {
                    let mapped = acc@.map_values(|a: AliasOperations| a@);
                    let sub2 = dec_alias_list(buf@.skip(p2 as int), (n - i - 1) as nat);
                    match sub2 {
                        Some(t2) => {
                            assert(mapped + (seq![a@] + t2.0) =~= mapped.push(a@) + t2.0);
                            assert(acc@.push(a).map_values(|x: AliasOperations| x@) =~= mapped.push(
                                a@,
                            ));
                        },
                        None => {},
                    }
                }
                acc.push(a);
                cur = p2;
                i = i + 1;
            },
            None => {
                return None;
            },
        }
    }
    proof {
        assert(acc@.map_values(|a: AliasOperations| a@) + Seq::<AliasOperationsV>::empty()
            =~= acc@.map_values(|a: AliasOperations| a@));
    }
    Some((acc, cur))
}

fn p_meta_op(buf: &[u8], pos: usize) -> (r: Option<(CollectionMetaOperations, usize)>)
    requires
        pos <= buf@.len(),
    ensures
        match r {
            Some((m, p2)) => pos <= p2 <= buf@.len() && dec_meta_op(buf@.skip(pos as int)) == Some(
                (m@, buf@.skip(p2 as int)),
            ),
            None => dec_meta_op(buf@.skip(pos as int)) is None,
        },
{
    match p_tag(buf, pos) {
        Some((t, p1)) => {
            if t == 0 {
                let (collection_name, p2) = match p_str(buf, p1) {
                    Some(v) => v,
                    None => {
                        return None;
                    },
                };
                let (create_collection, p3) = match p_create(buf, p2) {
                    Some(v) => v,
                    None => {
                        return None;
                    },
                };
                Some(
                    (
                        CollectionMetaOperations::CreateCollection(
                            CreateCollectionOperation { collection_name, create_collection },
                        ),
                        p3,
                    ),
                )
            } else if t == 1 {
                let (collection_name, p2) = match p_str(buf, p1) {
                    Some(v) => v,
                    None => {
                        return None;
                    },
                };
                let (update_collection, p3) = match p_update(buf, p2) {
                    Some(v) => v,
                    None => {
                        return None;
                    },
                };
                Some(
                    (
                        CollectionMetaOperations::UpdateCollection(
                            UpdateCollectionOperation { collection_name, update_collection },
                        ),
                        p3,
                    ),
                )
            } else if t == 2 {
                let (collection_name, p2) = match p_str(buf, p1) {
                    Some(v) => v,
                    None => {
                        return None;
                    },
                };
                Some(
                    (
                        CollectionMetaOperations::DeleteCollection(
                            DeleteCollectionOperation(collection_name),
                        ),
                        p2,
                    ),
                )
            } else if t == 3 {
                let (n, p2) = match p_u64(buf, p1) {
                    Some(v) => v,
                    None => {
                        return None;
                    },
                };
                let (actions, p3) = match p_alias_list(buf, p2, n) {
                    Some(v) => v,
                    None => {
                        return None;
                    },
                };
                Some(
                    (
                        CollectionMetaOperations::ChangeAliases(
                            ChangeAliasesOperation { actions },
                        ),
                        p3,
                    ),
                )
            } else {
                None
            }
        },
        None => None,
    }
}

fn p_consensus_op(buf: &[u8], pos: usize) -> (r: Option<(ConsensusOperations, usize)>)
    requires
        pos <= buf@.len(),
    ensures
        match r {
            Some((v, p2)) => pos <= p2 <= buf@.len() && dec_consensus_op(buf@.skip(pos as int))
                == Some((v@, buf@.skip(p2 as int))),
            None => dec_consensus_op(buf@.skip(pos as int)) is None,
        },
{
    match p_tag(buf, pos) {
        Some((t, p1)) => {
            if t == 0 {
                match p_meta_op(buf, p1) {
                    Some((m, p2)) => Some((ConsensusOperations::CollectionMeta(m), p2)),
                    None => None,
                }
            } else if t == 1 {
                let (peer_id, p2) = match p_u64(buf, p1) {
                    Some(v) => v,
                    None => {
                        return None;
                    },
                };
                let (uri, p3) = match p_str(buf, p2) {
                    Some(v) => v,
                    None => {
                        return None;
                    },
                };
                Some((ConsensusOperations::AddPeer(peer_id, uri), p3))
            } else {
                None
            }
        },
        None => None,
    }
}

/// Decodes a whole buffer as one consensus operation.
pub fn decode_consensus_op(data: &[u8]) -> (r: Option<ConsensusOperations>)
    ensures
        match r {
            Some(v) => decode_op_full(data@) == Some(v@),
            None => decode_op_full(data@) is None,
        },
{
    proof {
        assert(data@.skip(0) =~= data@);
    }
    match p_consensus_op(data, 0) {
        Some((v, p)) => {
            if p == data.len() {
                Some(v)
            } else {
                None
            }
        },
        None => None,
    }
}

} // verus!

verus! {

fn p_coll_pairs(buf: &[u8], pos: usize, n: u64) -> (r: Option<
    (Vec<(String, CollectionState)>, usize),
>)
    requires
        pos <= buf@.len(),
    ensures
        match r {
            Some((v, p2)) => pos <= p2 <= buf@.len() && dec_coll_pairs(
                buf@.skip(pos as int),
                n as nat,
            ) == Some(
                (
                    v@.map_values(|e: (String, CollectionState)| (e.0@, e.1)),
                    buf@.skip(p2 as int),
                ),
            ),
            None => dec_coll_pairs(buf@.skip(pos as int), n as nat) is None,
        },
{
    let mut acc: Vec<(String, CollectionState)> = Vec::new();
    let mut cur = pos;
    let mut i: u64 = 0;
    proof {
        assert(acc@.map_values(|e: (String, CollectionState)| (e.0@, e.1)) =~= Seq::<
            (Seq<char>, CollectionState),
        >::empty());
    }
    while i < n
        invariant
            pos <= cur <= buf@.len(),
            i <= n,
            ({
                let full = dec_coll_pairs(buf@.skip(pos as int), n as nat);
                let sub = dec_coll_pairs(buf@.skip(cur as int), (n - i) as nat);
                match sub {
                    Some(t) => full == Some(
                        (
                            acc@.map_values(|e: (String, CollectionState)| (e.0@, e.1)) + t.0,
                            t.1,
                        ),
                    ),
                    None => full is None,
                }
            }),
        decreases n - i,
    {
        let (name, p1) = match p_str(buf, cur) {
            Some(v) => v,
            None => {
                return None;
            },
        };
        let (st, p2) = match p_state(buf, p1) {
            Some(v) => v,
            None => {
                return None;
            },
        };
        proof {
            let mapped = acc@.map_values(|e: (String, CollectionState)| (e.0@, e.1));
            let sub2 = dec_coll_pairs(buf@.skip(p2 as int), (n - i - 1) as nat);
            match sub2 {
                Some(t2) => {
                    assert(mapped + (seq![(name@, st)] + t2.0) =~= mapped.push((name@, st)) + t2.0);
                    assert(acc@.push((name, st)).map_values(
                        |e: (String, CollectionState)| (e.0@, e.1),
                    ) =~= mapped.push((name@, st)));
                },
                None => {},
            }
        }
        acc.push((name, st));
        cur = p2;
        i = i + 1;
    }
    proof {
        let mapped = acc@.map_values(|e: (String, CollectionState)| (e.0@, e.1));
        assert(mapped + Seq::<(Seq<char>, CollectionState)>::empty() =~= mapped);
    }
    Some((acc, cur))
}

fn p_alias_pairs(buf: &[u8], pos: usize, n: u64) -> (r: Option<(Vec<(String, String)>, usize)>)
    requires
        pos <= buf@.len(),
    ensures
        match r {
            Some((v, p2)) => pos <= p2 <= buf@.len() && dec_alias_pairs(
                buf@.skip(pos as int),
                n as nat,
            ) == Some(
                (v@.map_values(|e: (String, String)| (e.0@, e.1@)), buf@.skip(p2 as int)),
            ),
            None => dec_alias_pairs(buf@.skip(pos as int), n as nat) is None,
        },
{
    let mut acc: Vec<(String, String)> = Vec::new();
    let mut cur = pos;
    let mut i: u64 = 0;
    proof {
        assert(acc@.map_values(|e: (String, String)| (e.0@, e.1@)) =~= Seq::<
            (Seq<char>, Seq<char>),
        >::empty());
    }
    while i < n
        invariant
            pos <= cur <= buf@.len(),
            i <= n,
            ({
                let full = dec_alias_pairs(buf@.skip(pos as int), n as nat);
                let sub = dec_alias_pairs(buf@.skip(cur as int), (n - i) as nat);
                match sub {
                    Some(t) => full == Some(
                        (acc@.map_values(|e: (String, String)| (e.0@, e.1@)) + t.0, t.1),
                    ),
                    None => full is None,
                }
            }),
        decreases n - i,
    {
        let (a, p1) = match p_str(buf, cur) {
            Some(v) => v,
            None => {
                return None;
            },
        };
        let (c, p2) = match p_str(buf, p1) {
            Some(v) => v,
            None => {
                return None;
            },
        };
        proof {
            let mapped = acc@.map_values(|e: (String, String)| (e.0@, e.1@));
            let sub2 = dec_alias_pairs(buf@.skip(p2 as int), (n - i - 1) as nat);
            match sub2 {
                Some(t2) => {
                    assert(mapped + (seq![(a@, c@)] + t2.0) =~= mapped.push((a@, c@)) + t2.0);
                    assert(acc@.push((a, c)).map_values(|e: (String, String)| (e.0@, e.1@))
                        =~= mapped.push((a@, c@)));
                },
                None => {},
            }
        }
        acc.push((a, c));
        cur = p2;
        i = i + 1;
    }
    proof {
        let mapped = acc@.map_values(|e: (String, String)| (e.0@, e.1@));
        assert(mapped + Seq::<(Seq<char>, Seq<char>)>::empty() =~= mapped);
    }
    Some((acc, cur))
}

fn p_addr_pairs(buf: &[u8], pos: usize, n: u64) -> (r: Option<(Vec<(u64, String)>, usize)>)
    requires
        pos <= buf@.len(),
    ensures
        match r {
            Some((v, p2)) => pos <= p2 <= buf@.len() && dec_addr_pairs(
                buf@.skip(pos as int),
                n as nat,
            ) == Some((v@.map_values(|e: (u64, String)| (e.0, e.1@)), buf@.skip(p2 as int))),
            None => dec_addr_pairs(buf@.skip(pos as int), n as nat) is None,
        },
{
    let mut acc: Vec<(u64, String)> = Vec::new();
    let mut cur = pos;
    let mut i: u64 = 0;
    proof {
        assert(acc@.map_values(|e: (u64, String)| (e.0, e.1@)) =~= Seq::<
            (u64, Seq<char>),
        >::empty());
    }
    while i < n
        invariant
            pos <= cur <= buf@.len(),
            i <= n,
            ({
                let full = dec_addr_pairs(buf@.skip(pos as int), n as nat);
                let sub = dec_addr_pairs(buf@.skip(cur as int), (n - i) as nat);
                match sub {
                    Some(t) => full == Some(
                        (acc@.map_values(|e: (u64, String)| (e.0, e.1@)) + t.0, t.1),
                    ),
                    None => full is None,
                }
            }),
        decreases n - i,
    {
        let (id, p1) = match p_u64(buf, cur) {
            Some(v) => v,
            None => {
                return None;
            },
        };
        let (uri, p2) = match p_str(buf, p1) {
            Some(v) => v,
            None => {
                return None;
            },
        };
        proof {
            let mapped = acc@.map_values(|e: (u64, String)| (e.0, e.1@));
            let sub2 = dec_addr_pairs(buf@.skip(p2 as int), (n - i - 1) as nat);
            match sub2 {
                Some(t2) => {
                    assert(mapped + (seq![(id, uri@)] + t2.0) =~= mapped.push((id, uri@)) + t2.0);
                    assert(acc@.push((id, uri)).map_values(|e: (u64, String)| (e.0, e.1@))
                        =~= mapped.push((id, uri@)));
                },
                None => {},
            }
        }
        acc.push((id, uri));
        cur = p2;
        i = i + 1;
    }
    proof {
        let mapped = acc@.map_values(|e: (u64, String)| (e.0, e.1@));
        assert(mapped + Seq::<(u64, Seq<char>)>::empty() =~= mapped);
    }
    Some((acc, cur))
}

/// Decodes a whole buffer as one state snapshot.
pub fn decode_snapshot(data: &[u8]) -> (r: Option<StateSnapshot>)
    ensures
        match r {
            Some(v) => decode_snapshot_full(data@) == Some(v@),
            None => decode_snapshot_full(data@) is None,
        },
{
    proof {
        assert(data@.skip(0) =~= data@);
    }
    let pos: usize = 0;
    let (n1, pos) = match p_u64(data, pos) {
        Some(v) => v,
        None => {
            return None;
        },
    };
    let (collections, pos) = match p_coll_pairs(data, pos, n1) {
        Some(v) => v,
        None => {
            return None;
        },
    };
    let (n2, pos) = match p_u64(data, pos) {
        Some(v) => v,
        None => {
            return None;
        },
    };
    let (aliases, pos) = match p_alias_pairs(data, pos, n2) {
        Some(v) => v,
        None => {
            return None;
        },
    };
    let (n3, pos) = match p_u64(data, pos) {
        Some(v) => v,
        None => {
            return None;
        },
    };
    let (address_by_id, pos) = match p_addr_pairs(data, pos, n3) {
        Some(v) => v,
        None => {
            return None;
        },
    };
    if pos == data.len() {
        Some(StateSnapshot { collections, aliases, address_by_id })
    } else {
        None
    }
}

/// Decodes a whole buffer as one consensus log entry.
pub fn decode_entry(data: &[u8]) -> (r: Option<ConsensusEntry>)
    ensures
        match r {
            Some(v) => decode_entry_full(data@) == Some(v@),
            None => decode_entry_full(data@) is None,
        },
{
    proof {
        assert(data@.skip(0) =~= data@);
    }
    let pos: usize = 0;
    let (entry_type, pos) = match p_kind(data, pos) {
        Some(v) => v,
        None => {
            return None;
        },
    };
    let (term, pos) = match p_u64(data, pos) {
        Some(v) => v,
        None => {
            return None;
        },
    };
    let (index, pos) = match p_u64(data, pos) {
        Some(v) => v,
        None => {
            return None;
        },
    };
    let (payload, pos) = match p_bytes(data, pos) {
        Some(v) => v,
        None => {
            return None;
        },
    };
    if pos == data.len() {
        Some(ConsensusEntry { entry_type, term, index, data: payload })
    } else {
        None
    }
}

} // verus!
