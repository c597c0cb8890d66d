//! Writing backups in their record layout.
use vstd::prelude::*;

use crate::byte_order::write_le;
use crate::experiment::backup::backup::BackUp;
use crate::measurements::backup::backup_fragments::{
    reboot_seed_bytes, run_info_bytes, write_experiment_parameters, write_run_info, RebootSeed,
};
use crate::measurements::rng_gen_wrapper::RngGenWrapperWriter;

verus! {

/// Appends `src` to `writer`.
pub fn write_bytes(writer: &mut Vec<u8>, src: &Vec<u8>)
    ensures
        final(writer)@ == old(writer)@ + src@,
{
    let mut i: usize = 0;
    while i < src.len()
        invariant
            0 <= i <= src@.len(),
            writer@ == old(writer)@ + src@.subrange(0, i as int),
        decreases src@.len() - i,
    {
        writer.push(src[i]);
        assert(src@.subrange(0, i + 1) =~= src@.subrange(0, i as int).push(src@[i as int]));
        i += 1;
    }
    assert(src@.subrange(0, src@.len() as int) =~= src@);
}

pub open spec fn backup_bytes(b: BackUp) -> Seq<u8> {
    reboot_seed_bytes(b.reboot_seed) + b.backup_data.recorded_data.data@ + run_info_bytes(b.run_info)
}

/// Writes a `RebootSeed` record: the edge phases, the generator state, the
/// two update counters, then the experiment parameters.
pub struct RebootSeedWriter {}

impl RebootSeedWriter {
    pub fn write_one(&self, writer: &mut Vec<u8>, value: &RebootSeed)
        ensures
            final(writer)@ == old(writer)@ + reboot_seed_bytes(*value),
    {
        write_bytes(writer, &value.last_state.edges);
        let rng_writer = RngGenWrapperWriter {};
        rng_writer.write_one(writer, &value.last_state.rng_gen);
        write_le(writer, value.last_state.performed_updates, 8);
        write_le(writer, value.last_state.accepted_updates, 8);
        write_experiment_parameters(writer, &value.experiment_parameters);
        assert(writer@ =~= old(writer)@ + reboot_seed_bytes(*value));
    }
}

/// Writes a `BackUp` record: the reboot seed, the recorded data in row-major
/// order, then the run information.
pub struct BackupWriter {}

impl BackupWriter {
    pub fn write_one(&self, writer: &mut Vec<u8>, value: &BackUp)
        ensures
            final(writer)@ == old(writer)@ + backup_bytes(*value),
    {
        let seed_writer = RebootSeedWriter {};
        seed_writer.write_one(writer, &value.reboot_seed);
        write_bytes(writer, &value.backup_data.recorded_data.data);
        write_run_info(writer, &value.run_info);
        assert(writer@ =~= old(writer)@ + backup_bytes(*value));
    }
}

} // verus!
