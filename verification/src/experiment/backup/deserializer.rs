//! Reading backups from their record layout. The lengths of the variable
//! parts (the edge phases, the generator state, the shape of the recorded
//! data) come from the record's dtype.
use vstd::prelude::*;

use crate::arrays::{lemma_shape_product_nonneg, prefix_products_fit, shape_product, shape_to_length, DynArray};
use crate::byte_order::read_le;
use crate::experiment::backup::backup::{BackUp, BackupData};
use crate::experiment::backup::layout::{
    backup_lengths, backup_lengths_of, dims_of, products_fit, reboot_seed_lengths,
    reboot_seed_lengths_of, shape_recursion, RecordLayout,
};
use crate::experiment::backup::serializer::backup_bytes;
use crate::measurements::backup::backup_fragments::{
    experiment_parameters_at, experiment_parameters_bytes, law_experiment_parameters_roundtrip,
    law_run_info_roundtrip, read_experiment_parameters, read_run_info, reboot_seed_bytes,
    run_info_at, run_info_bytes, u64_at, u64_bytes, RebootSeed, LastState,
    EXPERIMENT_PARAMETERS_BYTES, RUN_INFO_BYTES,
};
use crate::measurements::rng_gen_wrapper::RngGenWrapperReader;

verus! {

/// Length in bytes of a `RebootSeed` record whose edge and generator arrays
/// have the given lengths.
pub open spec fn reboot_seed_len(edges_len: int, rng_len: int) -> int {
    edges_len + rng_len + 16 + EXPERIMENT_PARAMETERS_BYTES
}

/// `r` is the `RebootSeed` record at `b[start..]` with the given array
/// lengths. The generator takes the first 16 bytes of its array.
pub open spec fn reboot_seed_at(b: Seq<u8>, start: int, edges_len: int, rng_len: int, r: RebootSeed) -> bool {
    let rng_start = start + edges_len;
    let counters = rng_start + rng_len;
    &&& r.last_state.edges@ == b.subrange(start, rng_start)
    &&& r.last_state.rng_gen.rng_gen@ == b.subrange(rng_start, rng_start + 16)
    &&& r.last_state.performed_updates == u64_at(b, counters)
    &&& r.last_state.accepted_updates == u64_at(b, counters + 8)
    &&& r.experiment_parameters == experiment_parameters_at(b, counters + 16)
}

/// `r` is the `BackUp` record at the start of `b`, given the lengths of its
/// variable parts.
pub open spec fn backup_at(b: Seq<u8>, edges_len: int, rng_len: int, shape: Seq<usize>, r: BackUp) -> bool {
    let seed_len = reboot_seed_len(edges_len, rng_len);
    let data_len = shape_product(shape);
    &&& reboot_seed_at(b, 0, edges_len, rng_len, r.reboot_seed)
    &&& r.backup_data.recorded_data.shape@ == shape
    &&& r.backup_data.recorded_data.data@ == b.subrange(seed_len, seed_len + data_len)
    &&& r.run_info == run_info_at(b, seed_len + data_len)
}

/// A copy of `b[start..start + len]`.
pub fn copy_range(b: &[u8], start: usize, len: usize) -> (res: Vec<u8>)
    requires
        start + len <= b@.len(),
    ensures
        res@ == b@.subrange(start as int, start + len),
{
    let total = b.len();
    let mut res: Vec<u8> = Vec::new();
    let mut i: usize = 0;
    while i < len
        invariant
            total == b@.len(),
            0 <= i <= len,
            start + len <= b@.len(),
            res@ == b@.subrange(start as int, start + i),
        decreases len - i,
    {
        res.push(b[start + i]);
        assert(b@.subrange(start as int, start + i + 1) =~= b@.subrange(start as int, start + i).push(
            b@[start + i],
        ));
        i += 1;
    }
    res
}

/// Reads `RebootSeed` records whose edge array has `edges_len` bytes and
/// whose generator array has `rng_len` bytes.
pub struct RebootSeedReader {
    pub edges_len: usize,
    pub rng_len: usize,
}

impl RebootSeedReader {
    /// The reader of `RebootSeed` records of layout `dtype`, or `None` where
    /// such records cannot be read (see `reboot_seed_lengths`).
    pub fn reader(dtype: &RecordLayout) -> (res: Option<Self>)
        ensures
            match reboot_seed_lengths(*dtype) {
                None => res is None,
                Some((e, r)) => res matches Some(rd) && rd.edges_len == e && rd.rng_len == r,
            },
            res matches Some(rd) ==> rd.rng_len >= 16,
    {
        match reboot_seed_lengths_of(dtype) {
            Some((edges_len, rng_len)) => Some(RebootSeedReader { edges_len, rng_len }),
            None => None,
        }
    }

    pub fn read_one(&self, bytes: &[u8]) -> (res: RebootSeed)
        requires
            self.rng_len >= 16,
            reboot_seed_len(self.edges_len as int, self.rng_len as int) <= bytes@.len(),
        ensures
            reboot_seed_at(bytes@, 0, self.edges_len as int, self.rng_len as int, res),
            res.last_state.rng_gen.wf(),
    {
        self.read_at(bytes, 0)
    }

    fn read_at(&self, bytes: &[u8], start: usize) -> (res: RebootSeed)
        requires
            self.rng_len >= 16,
            start + reboot_seed_len(self.edges_len as int, self.rng_len as int) <= bytes@.len(),
        ensures
            reboot_seed_at(bytes@, start as int, self.edges_len as int, self.rng_len as int, res),
            res.last_state.rng_gen.wf(),
    {
        let _len = bytes.len();
        let edges = copy_range(bytes, start, self.edges_len);
        let rng_start = start + self.edges_len;
        let rng_bytes = vstd::slice::slice_subrange(bytes, rng_start, rng_start + self.rng_len);
        let rng_reader = RngGenWrapperReader {};
        let rng_gen = rng_reader.read_one(rng_bytes);
        assert(rng_bytes@.subrange(0, 16) =~= bytes@.subrange(rng_start as int, rng_start + 16));
        let counters = rng_start + self.rng_len;
        let performed_updates = read_le(bytes, counters, 8);
        let accepted_updates = read_le(bytes, counters + 8, 8);
        let experiment_parameters = read_experiment_parameters(bytes, counters + 16);
        RebootSeed {
            last_state: LastState { edges, rng_gen, performed_updates, accepted_updates },
            experiment_parameters,
        }
    }
}

/// Reads the recorded data of a backup, an array of the given shape.
pub struct BackupDataReader {
    pub shape: Vec<usize>,
}

impl BackupDataReader {
    /// The reader of arrays of layout `dtype`: their shape is the lengths of
    /// the nested arrays of `dtype`. `None` where the element count does not
    /// fit in a `usize`.
    pub fn reader(dtype: &RecordLayout) -> (res: Option<Self>)
        ensures
            res is Some <==> prefix_products_fit(dims_of(*dtype)),
            res matches Some(rd) ==> rd.shape@ == dims_of(*dtype),
    {
        let mut shape: Vec<usize> = Vec::new();
        shape_recursion(dtype, &mut shape);
        assert(shape@ =~= dims_of(*dtype));
        if products_fit(&shape) {
            Some(BackupDataReader { shape })
        } else {
            None
        }
    }

    pub fn read_one(&self, bytes: &[u8]) -> (res: BackupData)
        requires
            prefix_products_fit(self.shape@),
            shape_product(self.shape@) <= bytes@.len(),
        ensures
            res.recorded_data.shape@ == self.shape@,
            res.recorded_data.data@ == bytes@.subrange(0, shape_product(self.shape@)),
    {
        let n = shape_to_length(self.shape.as_slice());
        let data = copy_range(bytes, 0, n);
        let shape = self.shape.clone();
        assert(shape@ =~= self.shape@);
        BackupData { recorded_data: DynArray { shape, data } }
    }
}

/// Reads `BackUp` records with the given lengths of their variable parts.
pub struct BackupReader {
    pub edges_len: usize,
    pub rng_len: usize,
    pub data_shape: Vec<usize>,
}

impl BackupReader {
    /// The reader of `BackUp` records of layout `dtype`, or `None` where such
    /// records cannot be read (see `backup_lengths`).
    pub fn reader(dtype: &RecordLayout) -> (res: Option<Self>)
        ensures
            match backup_lengths(*dtype, "backup_data"@) {
                None => res is None,
                Some((e, r, shape)) => res matches Some(rd) && rd.edges_len == e && rd.rng_len == r
                    && rd.data_shape@ == shape,
            },
            res matches Some(rd) ==> rd.rng_len >= 16 && prefix_products_fit(rd.data_shape@),
    {
        match backup_lengths_of(dtype, "backup_data") {
            Some((edges_len, rng_len, data_shape)) => Some(BackupReader { edges_len, rng_len, data_shape }),
            None => None,
        }
    }

    pub fn read_one(&self, bytes: &[u8]) -> (res: BackUp)
        requires
            self.rng_len >= 16,
            prefix_products_fit(self.data_shape@),
            reboot_seed_len(self.edges_len as int, self.rng_len as int) + shape_product(self.data_shape@)
                + RUN_INFO_BYTES <= bytes@.len(),
        ensures
            backup_at(bytes@, self.edges_len as int, self.rng_len as int, self.data_shape@, res),
            res.reboot_seed.last_state.rng_gen.wf(),
    {
        let _len = bytes.len();
        proof {
            lemma_shape_product_nonneg(self.data_shape@);
        }
        let seed_reader = RebootSeedReader { edges_len: self.edges_len, rng_len: self.rng_len };
        let reboot_seed = seed_reader.read_at(bytes, 0);
        let seed_len = self.edges_len + self.rng_len + 16 + EXPERIMENT_PARAMETERS_BYTES;
        let data_len = shape_to_length(self.data_shape.as_slice());
        let data = copy_range(bytes, seed_len, data_len);
        let shape = self.data_shape.clone();
        assert(shape@ =~= self.data_shape@);
        let run_info = read_run_info(bytes, seed_len + data_len);
        BackUp {
            reboot_seed,
            backup_data: BackupData { recorded_data: DynArray { shape, data } },
            run_info,
        }
    }
}

/// Reading the bytes of a `RebootSeed` record, with the lengths of its edge
/// array and of its 16-byte generator state, gives the seed back.
pub proof fn law_reboot_seed_roundtrip(r: RebootSeed, prefix: Seq<u8>, suffix: Seq<u8>)
    requires
        r.last_state.rng_gen.wf(),
    ensures
        reboot_seed_bytes(r).len() == reboot_seed_len(r.last_state.edges@.len() as int, 16),
        reboot_seed_at(
            prefix + reboot_seed_bytes(r) + suffix,
            prefix.len() as int,
            r.last_state.edges@.len() as int,
            16,
            r,
        ),
{
    let s = r.last_state;
    let e = s.edges@;
    let g = s.rng_gen.rng_gen@;
    let pb = u64_bytes(s.performed_updates);
    let ab = u64_bytes(s.accepted_updates);
    let eb = experiment_parameters_bytes(r.experiment_parameters);
    law_u64_roundtrip_at(s.performed_updates, prefix + e + g, ab + eb + suffix);
    law_u64_roundtrip_at(s.accepted_updates, prefix + e + g + pb, eb + suffix);
    law_experiment_parameters_roundtrip(r.experiment_parameters, prefix + e + g + pb + ab, suffix);
    let b = prefix + reboot_seed_bytes(r) + suffix;
    let p = prefix.len() as int;
    assert(b =~= prefix + e + g + pb + (ab + eb + suffix));
    assert(b =~= prefix + e + g + pb + ab + (eb + suffix));
    assert(b =~= prefix + e + g + pb + ab + eb + suffix);
    assert(b.subrange(p, p + e.len()) =~= e);
    assert(b.subrange(p + e.len(), p + e.len() + 16) =~= g);
}

proof fn law_u64_roundtrip_at(x: u64, prefix: Seq<u8>, suffix: Seq<u8>)
    ensures
        u64_bytes(x).len() == 8,
        u64_at(prefix + u64_bytes(x) + suffix, prefix.len() as int) == x,
{
    crate::byte_order::lemma_pow256_values();
    crate::byte_order::lemma_le_bytes_len(x as nat, 8);
    crate::byte_order::lemma_le_roundtrip(x as nat, 8);
    let b = prefix + u64_bytes(x) + suffix;
    let p = prefix.len() as int;
    assert(b.subrange(p, p + 8) =~= u64_bytes(x));
}

/// Reading the bytes of a `BackUp` record, with the lengths of its variable
/// parts, gives the backup back.
pub proof fn law_backup_roundtrip(b: BackUp, suffix: Seq<u8>)
    requires
        b.reboot_seed.last_state.rng_gen.wf(),
        b.backup_data.recorded_data.wf(),
    ensures
        backup_at(
            backup_bytes(b) + suffix,
            b.reboot_seed.last_state.edges@.len() as int,
            16,
            b.backup_data.recorded_data.shape@,
            b,
        ),
{
    let sb = reboot_seed_bytes(b.reboot_seed);
    let d = b.backup_data.recorded_data.data@;
    let rb = run_info_bytes(b.run_info);
    law_reboot_seed_roundtrip(b.reboot_seed, Seq::empty(), d + rb + suffix);
    law_run_info_roundtrip(b.run_info, sb + d, suffix);
    let all = backup_bytes(b) + suffix;
    assert(all =~= Seq::<u8>::empty() + sb + (d + rb + suffix));
    assert(all =~= sb + d + rb + suffix);
    assert(all.subrange(sb.len() as int, (sb.len() + d.len()) as int) =~= d);
}

} // verus!
