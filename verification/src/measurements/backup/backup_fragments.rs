//! The records that make up a backup: the state an experiment restarts from
//! and the bookkeeping of a measurement run, with their byte layout. Every
//! integer is stored little endian; floating-point parameters are held by
//! their IEEE-754 bit patterns.
use vstd::prelude::*;

use crate::byte_order::{
    le_bytes, le_value, lemma_le_bytes_len, lemma_le_bytes_of_value, lemma_le_roundtrip,
    lemma_le_value_bound, lemma_pow256_values, read_le, write_le,
};
use crate::measurements::rng_gen_wrapper::{RngGenWrapper, RngGenWrapperReader, RngGenWrapperWriter};

verus! {

/// Everything needed to restart an experiment where it stopped.
#[derive(Clone, Debug, PartialEq, Eq)]
pub struct RebootSeed {
    pub last_state: LastState,
    pub experiment_parameters: ExperimentParameters,
}

/// The dynamical state of an experiment: the phase of every edge, the
/// generator, and the update counters.
#[derive(Clone, Debug, PartialEq, Eq)]
pub struct LastState {
    pub edges: Vec<u8>,
    pub rng_gen: RngGenWrapper,
    pub performed_updates: u64,
    pub accepted_updates: u64,
}

/// The parameters an experiment was started with. `beta_bits` and
/// `lambda_bits` are the bit patterns of the `f32` couplings.
#[derive(Clone, Copy, Debug, PartialEq, Eq)]
pub struct ExperimentParameters {
    pub shape: [u32; 4],
    pub z_order: u32,
    pub beta_bits: u32,
    pub lambda_bits: u32,
    pub rng_seed: u64,
}

/// Bookkeeping of one stretch of recordings.
#[derive(Clone, Copy, Debug, PartialEq, Eq, Default)]
pub struct RunInfo {
    pub recordings: u32,
    pub recording_skip: u32,
    pub recordings_until_backup: u32,
    pub backup_number: u32,
    pub recording_time: i64,
    pub run_id: u32,
}

/// Size in bytes of an `ExperimentParameters` record.
pub const EXPERIMENT_PARAMETERS_BYTES: usize = 36;

/// Size in bytes of a `RunInfo` record.
pub const RUN_INFO_BYTES: usize = 28;

pub open spec fn u32_bytes(x: u32) -> Seq<u8> {
    le_bytes(x as nat, 4)
}

pub open spec fn u64_bytes(x: u64) -> Seq<u8> {
    le_bytes(x as nat, 8)
}

pub open spec fn experiment_parameters_bytes(p: ExperimentParameters) -> Seq<u8> {
    u32_bytes(p.shape[0]) + u32_bytes(p.shape[1]) + u32_bytes(p.shape[2]) + u32_bytes(p.shape[3])
        + u32_bytes(p.z_order) + u32_bytes(p.beta_bits) + u32_bytes(p.lambda_bits) + u64_bytes(
        p.rng_seed,
    )
}

pub open spec fn run_info_bytes(r: RunInfo) -> Seq<u8> {
    u32_bytes(r.recordings) + u32_bytes(r.recording_skip) + u32_bytes(r.recordings_until_backup)
        + u32_bytes(r.backup_number) + u64_bytes(r.recording_time as u64) + u32_bytes(r.run_id)
}

pub open spec fn last_state_bytes(s: LastState) -> Seq<u8> {
    s.edges@ + s.rng_gen.rng_gen@ + u64_bytes(s.performed_updates) + u64_bytes(s.accepted_updates)
}

pub open spec fn reboot_seed_bytes(r: RebootSeed) -> Seq<u8> {
    last_state_bytes(r.last_state) + experiment_parameters_bytes(r.experiment_parameters)
}

pub open spec fn u32_at(b: Seq<u8>, i: int) -> u32 {
    le_value(b.subrange(i, i + 4)) as u32
}

pub open spec fn u64_at(b: Seq<u8>, i: int) -> u64 {
    le_value(b.subrange(i, i + 8)) as u64
}

/// The `ExperimentParameters` record stored in `b[i..i + 36]`.
pub open spec fn experiment_parameters_at(b: Seq<u8>, i: int) -> ExperimentParameters {
    ExperimentParameters {
        shape: [u32_at(b, i), u32_at(b, i + 4), u32_at(b, i + 8), u32_at(b, i + 12)],
        z_order: u32_at(b, i + 16),
        beta_bits: u32_at(b, i + 20),
        lambda_bits: u32_at(b, i + 24),
        rng_seed: u64_at(b, i + 28),
    }
}

/// The `RunInfo` record stored in `b[i..i + 28]`.
pub open spec fn run_info_at(b: Seq<u8>, i: int) -> RunInfo {
    RunInfo {
        recordings: u32_at(b, i),
        recording_skip: u32_at(b, i + 4),
        recordings_until_backup: u32_at(b, i + 8),
        backup_number: u32_at(b, i + 12),
        recording_time: u64_at(b, i + 16) as i64,
        run_id: u32_at(b, i + 24),
    }
}

proof fn lemma_u32_roundtrip(x: u32)
    ensures
        u32_bytes(x).len() == 4,
        le_value(u32_bytes(x)) as u32 == x,
{
    lemma_pow256_values();
    lemma_le_bytes_len(x as nat, 4);
    lemma_le_roundtrip(x as nat, 4);
}

proof fn lemma_u64_roundtrip(x: u64)
    ensures
        u64_bytes(x).len() == 8,
        le_value(u64_bytes(x)) as u64 == x,
{
    lemma_pow256_values();
    lemma_le_bytes_len(x as nat, 8);
    lemma_le_roundtrip(x as nat, 8);
}

/// Writing the `u32` read at `b[i..i + 4]` gives those bytes back.
pub proof fn lemma_u32_at(b: Seq<u8>, i: int)
    requires
        0 <= i,
        i + 4 <= b.len(),
    ensures
        u32_bytes(u32_at(b, i)) == b.subrange(i, i + 4),
{
    let s = b.subrange(i, i + 4);
    lemma_le_value_bound(s);
    lemma_pow256_values();
    lemma_le_bytes_of_value(s);
}

/// Writing the `u64` read at `b[i..i + 8]` gives those bytes back.
pub proof fn lemma_u64_at(b: Seq<u8>, i: int)
    requires
        0 <= i,
        i + 8 <= b.len(),
    ensures
        u64_bytes(u64_at(b, i)) == b.subrange(i, i + 8),
{
    let s = b.subrange(i, i + 8);
    lemma_le_value_bound(s);
    lemma_pow256_values();
    lemma_le_bytes_of_value(s);
}

/// Reading the bytes of an `ExperimentParameters` record gives the record
/// back.
pub proof fn law_experiment_parameters_roundtrip(p: ExperimentParameters, prefix: Seq<u8>, suffix: Seq<u8>)
    ensures
        experiment_parameters_bytes(p).len() == EXPERIMENT_PARAMETERS_BYTES,
        experiment_parameters_at(prefix + experiment_parameters_bytes(p) + suffix, prefix.len() as int)
            == p,
{
    lemma_u32_roundtrip(p.shape[0]);
    lemma_u32_roundtrip(p.shape[1]);
    lemma_u32_roundtrip(p.shape[2]);
    lemma_u32_roundtrip(p.shape[3]);
    lemma_u32_roundtrip(p.z_order);
    lemma_u32_roundtrip(p.beta_bits);
    lemma_u32_roundtrip(p.lambda_bits);
    lemma_u64_roundtrip(p.rng_seed);
    let b = prefix + experiment_parameters_bytes(p) + suffix;
    let i = prefix.len() as int;
    assert(b.subrange(i, i + 4) =~= u32_bytes(p.shape[0]));
    assert(b.subrange(i + 4, i + 8) =~= u32_bytes(p.shape[1]));
    assert(b.subrange(i + 8, i + 12) =~= u32_bytes(p.shape[2]));
    assert(b.subrange(i + 12, i + 16) =~= u32_bytes(p.shape[3]));
    assert(b.subrange(i + 16, i + 20) =~= u32_bytes(p.z_order));
    assert(b.subrange(i + 20, i + 24) =~= u32_bytes(p.beta_bits));
    assert(b.subrange(i + 24, i + 28) =~= u32_bytes(p.lambda_bits));
    assert(b.subrange(i + 28, i + 36) =~= u64_bytes(p.rng_seed));
    assert(experiment_parameters_at(b, i).shape =~= p.shape);
}

/// Reading the bytes of a `RunInfo` record gives the record back.
pub proof fn law_run_info_roundtrip(r: RunInfo, prefix: Seq<u8>, suffix: Seq<u8>)
    ensures
        run_info_bytes(r).len() == RUN_INFO_BYTES,
        run_info_at(prefix + run_info_bytes(r) + suffix, prefix.len() as int) == r,
{
    lemma_u32_roundtrip(r.recordings);
    lemma_u32_roundtrip(r.recording_skip);
    lemma_u32_roundtrip(r.recordings_until_backup);
    lemma_u32_roundtrip(r.backup_number);
    lemma_u64_roundtrip(r.recording_time as u64);
    lemma_u32_roundtrip(r.run_id);
    let b = prefix + run_info_bytes(r) + suffix;
    let i = prefix.len() as int;
    assert(b.subrange(i, i + 4) =~= u32_bytes(r.recordings));
    assert(b.subrange(i + 4, i + 8) =~= u32_bytes(r.recording_skip));
    assert(b.subrange(i + 8, i + 12) =~= u32_bytes(r.recordings_until_backup));
    assert(b.subrange(i + 12, i + 16) =~= u32_bytes(r.backup_number));
    assert(b.subrange(i + 16, i + 24) =~= u64_bytes(r.recording_time as u64));
    assert(b.subrange(i + 24, i + 28) =~= u32_bytes(r.run_id));
    let t = r.recording_time;
    assert((t as u64) as i64 == t) by (bit_vector);
}

/// Every 36 bytes are the encoding of the `ExperimentParameters` record read
/// from them.
pub proof fn law_experiment_parameters_bytes_of_record(b: Seq<u8>, i: int)
    requires
        0 <= i,
        i + 36 <= b.len(),
    ensures
        experiment_parameters_bytes(experiment_parameters_at(b, i)) == b.subrange(i, i + 36),
{
    lemma_u32_at(b, i);
    lemma_u32_at(b, i + 4);
    lemma_u32_at(b, i + 8);
    lemma_u32_at(b, i + 12);
    lemma_u32_at(b, i + 16);
    lemma_u32_at(b, i + 20);
    lemma_u32_at(b, i + 24);
    lemma_u64_at(b, i + 28);
    assert(experiment_parameters_bytes(experiment_parameters_at(b, i)) =~= b.subrange(i, i + 36));
}

/// Every 28 bytes are the encoding of the `RunInfo` record read from them.
pub proof fn law_run_info_bytes_of_record(b: Seq<u8>, i: int)
    requires
        0 <= i,
        i + 28 <= b.len(),
    ensures
        run_info_bytes(run_info_at(b, i)) == b.subrange(i, i + 28),
{
    lemma_u32_at(b, i);
    lemma_u32_at(b, i + 4);
    lemma_u32_at(b, i + 8);
    lemma_u32_at(b, i + 12);
    lemma_u64_at(b, i + 16);
    lemma_u32_at(b, i + 24);
    let u = u64_at(b, i + 16);
    assert((u as i64) as u64 == u) by (bit_vector);
    assert(run_info_bytes(run_info_at(b, i)) =~= b.subrange(i, i + 28));
}

/// Sum of the recording counts.
pub open spec fn recordings_sum(infos: Seq<RunInfo>) -> int
    decreases infos.len(),
{
    if infos.len() == 0 {
        0
    } else {
        recordings_sum(infos.drop_last()) + infos.last().recordings
    }
}

/// Recording counts add up along a split of the list, and never below zero.
pub proof fn lemma_recordings_sum_split(s: Seq<RunInfo>, t: Seq<RunInfo>)
    ensures
        recordings_sum(s + t) == recordings_sum(s) + recordings_sum(t),
        recordings_sum(t) >= 0,
    decreases t.len(),
{
    if t.len() == 0 {
        assert(s + t =~= s);
    } else {
        lemma_recordings_sum_split(s, t.drop_last());
        assert((s + t).drop_last() =~= s + t.drop_last());
        assert((s + t).last() == t.last());
    }
}

proof fn lemma_recordings_sum_prefix(infos: Seq<RunInfo>, i: int)
    requires
        0 <= i <= infos.len(),
    ensures
        recordings_sum(infos.take(i)) <= recordings_sum(infos),
    decreases infos.len() - i,
{
    if i < infos.len() {
        lemma_recordings_sum_prefix(infos, i + 1);
        assert(infos.take(i + 1).drop_last() =~= infos.take(i));
    } else {
        assert(infos.take(i) =~= infos);
    }
}

/// The run information of merged backups: that of the last backup, with the
/// recording counts summed and backup number `1`.
pub fn merge_run_infos(infos: &Vec<RunInfo>) -> (res: RunInfo)
    requires
        infos@.len() > 0,
        recordings_sum(infos@) <= u32::MAX,
    ensures
        res == (RunInfo { recordings: recordings_sum(infos@) as u32, backup_number: 1, ..infos@.last() }),
{
    let mut total: u32 = 0;
    let mut i: usize = 0;
    assert(infos@.take(0) =~= Seq::<RunInfo>::empty());
    while i < infos.len()
        invariant
            0 <= i <= infos@.len(),
            recordings_sum(infos@) <= u32::MAX,
            total == recordings_sum(infos@.take(i as int)),
        decreases infos@.len() - i,
    {
        proof {
            lemma_recordings_sum_prefix(infos@, i + 1);
            assert(infos@.take(i + 1).drop_last() =~= infos@.take(i as int));
        }
        total = total + infos[i].recordings;
        i += 1;
    }
    assert(infos@.take(infos@.len() as int) =~= infos@);
    let last = infos[infos.len() - 1];
    RunInfo { recordings: total, backup_number: 1, ..last }
}

/// Appends the record of `value`.
pub fn write_experiment_parameters(writer: &mut Vec<u8>, value: &ExperimentParameters)
    ensures
        final(writer)@ == old(writer)@ + experiment_parameters_bytes(*value),
{
    write_le(writer, value.shape[0] as u64, 4);
    write_le(writer, value.shape[1] as u64, 4);
    write_le(writer, value.shape[2] as u64, 4);
    write_le(writer, value.shape[3] as u64, 4);
    write_le(writer, value.z_order as u64, 4);
    write_le(writer, value.beta_bits as u64, 4);
    write_le(writer, value.lambda_bits as u64, 4);
    write_le(writer, value.rng_seed, 8);
    assert(writer@ =~= old(writer)@ + experiment_parameters_bytes(*value));
}

/// Appends the record of `value`.
pub fn write_run_info(writer: &mut Vec<u8>, value: &RunInfo)
    ensures
        final(writer)@ == old(writer)@ + run_info_bytes(*value),
{
    write_le(writer, value.recordings as u64, 4);
    write_le(writer, value.recording_skip as u64, 4);
    write_le(writer, value.recordings_until_backup as u64, 4);
    write_le(writer, value.backup_number as u64, 4);
    write_le(writer, value.recording_time as u64, 8);
    write_le(writer, value.run_id as u64, 4);
    assert(writer@ =~= old(writer)@ + run_info_bytes(*value));
}

fn read_u32(b: &[u8], start: usize) -> (res: u32)
    requires
        start + 4 <= b@.len(),
    ensures
        res == u32_at(b@, start as int),
{
    let v = read_le(b, start, 4);
    proof {
        lemma_le_value_bound(b@.subrange(start as int, start + 4));
        lemma_pow256_values();
    }
    v as u32
}

/// The `ExperimentParameters` record stored at `b[start..start + 36]`.
pub fn read_experiment_parameters(b: &[u8], start: usize) -> (res: ExperimentParameters)
    requires
        start + EXPERIMENT_PARAMETERS_BYTES <= b@.len(),
    ensures
        res == experiment_parameters_at(b@, start as int),
{
    let _len = b.len();
    let s0 = read_u32(b, start);
    let s1 = read_u32(b, start + 4);
    let s2 = read_u32(b, start + 8);
    let s3 = read_u32(b, start + 12);
    let z_order = read_u32(b, start + 16);
    let beta_bits = read_u32(b, start + 20);
    let lambda_bits = read_u32(b, start + 24);
    let rng_seed = read_le(b, start + 28, 8);
    let res = ExperimentParameters { shape: [s0, s1, s2, s3], z_order, beta_bits, lambda_bits, rng_seed };
    assert(res.shape =~= experiment_parameters_at(b@, start as int).shape);
    res
}

/// The `RunInfo` record stored at `b[start..start + 28]`.
pub fn read_run_info(b: &[u8], start: usize) -> (res: RunInfo)
    requires
        start + RUN_INFO_BYTES <= b@.len(),
    ensures
        res == run_info_at(b@, start as int),
{
    let _len = b.len();
    let recordings = read_u32(b, start);
    let recording_skip = read_u32(b, start + 4);
    let recordings_until_backup = read_u32(b, start + 8);
    let backup_number = read_u32(b, start + 12);
    let recording_time = read_le(b, start + 16, 8) as i64;
    let run_id = read_u32(b, start + 24);
    RunInfo { recordings, recording_skip, recordings_until_backup, backup_number, recording_time, run_id }
}

} // verus!
