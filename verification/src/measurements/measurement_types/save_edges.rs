//! A measurement that records the phase of every edge at every recording.
use vstd::prelude::*;

use crate::arrays::{
    arrays_mergeable, is_arrays_mergeable, concat_data, law_stack_regroup, concatenate_first_axis, first_axis_total, lemma_same_views_stack, nonzero_product,
    prefix_products_fit, same_views, shape_product, stackable, stacked_shape, DynArray,
};
use crate::experiment::backup::backup::{BackUp, BackupData};
use crate::experiment::backup::deserializer::{backup_at, BackupReader};
use crate::experiment::backup::layout::{
    backup_lengths, backup_lengths_of, data_record_dtype, is_backup_layout, RecordLayout,
};
use crate::experiment::backup::serializer::{backup_bytes, write_bytes, RebootSeedWriter};
use crate::experiment::experiment::{is_seed_of, Experiment};
use crate::measurements::backup::backup_fragments::write_run_info;
use crate::measurements::backup::backup_fragments::{RebootSeed, RunInfo, RUN_INFO_BYTES};

verus! {

/// A backup of an edge-recording run: the seed that restarts it, the edges
/// recorded since the last backup (recording index first), and the run
/// information.
#[derive(Clone, Debug, PartialEq)]
pub struct SaveEdges {
    pub reboot_seed: RebootSeed,
    pub edges: DynArray<u8>,
    pub run_info: RunInfo,
}

pub open spec fn total_recordings(backups: Seq<SaveEdges>) -> int
    decreases backups.len(),
{
    if backups.len() == 0 {
        0
    } else {
        total_recordings(backups.drop_last()) + backups.last().run_info.recordings
    }
}

pub open spec fn recorded_edges(backups: Seq<SaveEdges>) -> Seq<DynArray<u8>> {
    backups.map_values(|b: SaveEdges| b.edges)
}

/// The backups can be merged (see `BackUp::merge_backups`).
pub open spec fn mergeable(backups: Seq<SaveEdges>) -> bool {
    &&& forall|i: int| 0 <= i < backups.len() ==> (#[trigger] backups[i]).edges.wf()
    &&& stackable(recorded_edges(backups))
    &&& first_axis_total(recorded_edges(backups)) <= usize::MAX
    &&& nonzero_product(stacked_shape(recorded_edges(backups))) <= isize::MAX
    &&& total_recordings(backups) <= u32::MAX
}

/// Recording counts add up along a split of the list, and never below zero.
proof fn lemma_total_split(s: Seq<SaveEdges>, t: Seq<SaveEdges>)
    ensures
        total_recordings(s + t) == total_recordings(s) + total_recordings(t),
        total_recordings(t) >= 0,
    decreases t.len(),
{
    if t.len() == 0 {
        assert(s + t =~= s);
    } else {
        lemma_total_split(s, t.drop_last());
        assert((s + t).drop_last() =~= s + t.drop_last());
        assert((s + t).last() == t.last());
    }
}

/// `res` is what merging `backups` gives: the last backup, with the
/// recorded edges of all stacked in order, the recording counts summed and
/// backup number `1`.
pub open spec fn is_edges_merge_of(res: SaveEdges, backups: Seq<SaveEdges>) -> bool {
    &&& res.reboot_seed == backups.last().reboot_seed
    &&& res.run_info == (RunInfo {
        recordings: total_recordings(backups) as u32,
        backup_number: 1,
        ..backups.last().run_info
    })
    &&& res.edges.shape@ == stacked_shape(recorded_edges(backups))
    &&& res.edges.data@ == concat_data(recorded_edges(backups))
}

/// Merging is associative: merging a run of consecutive backups first and
/// then the list with that run replaced by its merge describes the same
/// backup as merging the whole list at once; where the whole list can be
/// merged, so can the run and the regrouped list.
pub proof fn law_edges_merge_regroup(
    l: Seq<SaveEdges>,
    a: Seq<SaveEdges>,
    r: Seq<SaveEdges>,
    m: SaveEdges,
    z: SaveEdges,
)
    requires
        mergeable(l + a + r),
        a.len() > 0,
        is_edges_merge_of(m, a),
    ensures
        mergeable(a),
        mergeable(l + seq![m] + r),
        is_edges_merge_of(z, l + seq![m] + r) == is_edges_merge_of(z, l + a + r),
{
    let x = l + a + r;
    let y = l + seq![m] + r;
    assert(recorded_edges(x) =~= recorded_edges(l) + recorded_edges(a) + recorded_edges(r));
    assert(recorded_edges(y) =~= recorded_edges(l) + seq![m.edges] + recorded_edges(r));
    assert forall|i: int| 0 <= i < recorded_edges(x).len() implies (#[trigger] recorded_edges(x)[i]).wf() by {
        assert(recorded_edges(x)[i] == x[i].edges);
    }
    law_stack_regroup(recorded_edges(l), recorded_edges(a), recorded_edges(r), m.edges);
    lemma_total_split(l + a, r);
    lemma_total_split(l, a);
    lemma_total_split(l + seq![m], r);
    lemma_total_split(l, seq![m]);
    lemma_total_split(Seq::<SaveEdges>::empty(), l);
    assert(Seq::<SaveEdges>::empty() + l =~= l);
    assert(seq![m].drop_last() =~= Seq::<SaveEdges>::empty());
    assert(total_recordings(seq![m]) == m.run_info.recordings);
    assert forall|i: int| 0 <= i < a.len() implies (#[trigger] a[i]).edges.wf() by {
        assert(recorded_edges(a)[i] == a[i].edges);
    }
    assert(mergeable(a));
    assert forall|i: int| 0 <= i < y.len() implies (#[trigger] y[i]).edges.wf() by {
        assert(recorded_edges(y)[i] == y[i].edges);
    }
    assert(mergeable(y));
    if r.len() > 0 {
        assert(y.last() == r.last());
        assert(x.last() == r.last());
    } else {
        assert(y.last() == m);
        assert(x.last() == a.last());
    }
}

proof fn lemma_total_prefix(backups: Seq<SaveEdges>, i: int)
    requires
        0 <= i <= backups.len(),
    ensures
        total_recordings(backups.take(i)) <= total_recordings(backups),
    decreases backups.len() - i,
{
    if i < backups.len() {
        lemma_total_prefix(backups, i + 1);
        assert(backups.take(i + 1).drop_last() =~= backups.take(i));
    } else {
        assert(backups.take(i) =~= backups);
    }
}

/// The backup that holds the same seed, data and run information as `s`,
/// the edges as its recorded data.
pub open spec fn as_backup(s: SaveEdges) -> BackUp {
    BackUp { reboot_seed: s.reboot_seed, backup_data: BackupData { recorded_data: s.edges }, run_info: s.run_info }
}

impl SaveEdges {
    /// The layout of the record of this backup: the reboot seed, the edges
    /// (field `edges`) and the run information.
    pub fn generate_dtype(&self) -> (res: RecordLayout)
        ensures
            is_backup_layout(
                res,
                "edges"@,
                self.reboot_seed.last_state.edges@.len() as usize,
                self.reboot_seed.last_state.rng_gen.rng_gen@.len() as usize,
                self.edges.shape@,
            ),
    {
        data_record_dtype(&self.reboot_seed, self.edges.shape.as_slice(), "edges")
    }

    /// Appends the record of this backup: the reboot seed, the edges in
    /// row-major order, then the run information, as a `BackUp` record.
    pub fn write_record(&self, writer: &mut Vec<u8>)
        ensures
            final(writer)@ == old(writer)@ + backup_bytes(as_backup(*self)),
    {
        let seed_writer = RebootSeedWriter {};
        seed_writer.write_one(writer, &self.reboot_seed);
        write_bytes(writer, &self.edges.data);
        write_run_info(writer, &self.run_info);
        assert(writer@ =~= old(writer)@ + backup_bytes(as_backup(*self)));
    }

    /// The backup of `experiment` holding `edges` and `run_info`.
    pub fn new<const ZORDER: usize>(experiment: &Experiment<ZORDER>, edges: DynArray<u8>, run_info: RunInfo) -> (res: Self)
        ensures
            is_seed_of(*experiment, res.reboot_seed),
            res.edges == edges,
            res.run_info == run_info,
    {
        SaveEdges { reboot_seed: experiment.to_seed(), edges, run_info }
    }

    /// Whether the backups can be merged (see `mergeable`).
    pub fn is_mergeable(backups: &Vec<SaveEdges>) -> (res: bool)
        ensures
            res == mergeable(backups@),
    {
        let ghost bs = backups@;
        let mut arrays: Vec<DynArray<u8>> = Vec::new();
        let mut sum: u64 = 0;
        let mut small = true;
        let mut i: usize = 0;
        assert(bs.take(0) =~= Seq::<SaveEdges>::empty());
        while i < backups.len()
            invariant
                bs == backups@,
                0 <= i <= bs.len(),
                same_views(arrays@, recorded_edges(bs.take(i as int))),
                small ==> sum == total_recordings(bs.take(i as int)) && sum <= u32::MAX,
                !small ==> total_recordings(bs.take(i as int)) > u32::MAX,
            decreases bs.len() - i,
        {
            assert(bs.take(i + 1).drop_last() =~= bs.take(i as int));
            proof {
                lemma_total_prefix(bs.take(i + 1), i as int);
                assert(bs.take(i + 1).take(i as int) =~= bs.take(i as int));
            }
            if small {
                sum = sum + backups[i].run_info.recordings as u64;
                if sum > u32::MAX as u64 {
                    small = false;
                }
            }
            arrays.push(backups[i].edges.duplicate());
            assert(same_views(arrays@, recorded_edges(bs.take(i + 1))));
            i += 1;
        }
        assert(bs.take(bs.len() as int) =~= bs);
        proof {
            lemma_same_views_stack(arrays@, recorded_edges(bs));
        }
        if !small {
            return false;
        }
        let ok = is_arrays_mergeable(&arrays);
        proof {
            let re = recorded_edges(bs);
            assert(forall|j: int| 0 <= j < bs.len() ==> #[trigger] re[j] == bs[j].edges);
            assert((forall|j: int| 0 <= j < arrays@.len() ==> (#[trigger] arrays@[j]).wf()) == (forall|j: int|
                0 <= j < bs.len() ==> (#[trigger] bs[j]).edges.wf())) by {
                if forall|j: int| 0 <= j < arrays@.len() ==> (#[trigger] arrays@[j]).wf() {
                    assert forall|j: int| 0 <= j < bs.len() implies (#[trigger] bs[j]).edges.wf() by {
                        assert(arrays@[j].wf());
                    }
                }
                if forall|j: int| 0 <= j < bs.len() ==> (#[trigger] bs[j]).edges.wf() {
                    assert forall|j: int| 0 <= j < arrays@.len() implies (#[trigger] arrays@[j]).wf() by {
                        assert(bs[j].edges.wf());
                    }
                }
            }
            if bs.len() > 0 {
                assert(stacked_shape(arrays@) == stacked_shape(re));
            }
        }
        ok
    }

    /// Merges consecutive backups of one run: the last backup, with the
    /// recorded edges of all stacked in order, the recording counts summed,
    /// and backup number `1`.
    pub fn merge(backups: Vec<SaveEdges>) -> (res: SaveEdges)
        requires
            mergeable(backups@),
        ensures
            is_edges_merge_of(res, backups@),
    {
        let mut backups = backups;
        let ghost bs = backups@;
        let mut total: u32 = 0;
        let mut arrays: Vec<DynArray<u8>> = Vec::new();
        let mut i: usize = 0;
        while i < backups.len()
            invariant
                backups@ == bs,
                0 <= i <= bs.len(),
                mergeable(bs),
                total == total_recordings(bs.take(i as int)),
                same_views(arrays@, recorded_edges(bs.take(i as int))),
            decreases bs.len() - i,
        {
            proof {
                lemma_total_prefix(bs, i + 1);
                assert(bs.take(i + 1).drop_last() =~= bs.take(i as int));
            }
            total = total + backups[i].run_info.recordings;
            arrays.push(backups[i].edges.duplicate());
            proof {
                assert(same_views(arrays@, recorded_edges(bs.take(i + 1))));
            }
            i += 1;
        }
        assert(bs.take(bs.len() as int) =~= bs);
        proof {
            lemma_same_views_stack(arrays@, recorded_edges(bs));
        }
        let merged = concatenate_first_axis(&arrays);
        let mut backup = backups.pop().unwrap();
        backup.run_info.recordings = total;
        backup.edges = merged.unwrap();
        backup.run_info.backup_number = 1;
        backup
    }
}

/// Reads the records of edge-recording backups, whose layout is that of a
/// `BackUp` with the data in the field `edges`.
pub struct SaveEdgesReader {
    pub inner: BackupReader,
}

impl SaveEdgesReader {
    /// The reader of records of layout `dtype`, or `None` where such records
    /// cannot be read (see `backup_lengths`, with data field `edges`).
    pub fn reader(dtype: &RecordLayout) -> (res: Option<Self>)
        ensures
            match backup_lengths(*dtype, "edges"@) {
                None => res is None,
                Some((e, r, shape)) => res matches Some(rd) && rd.inner.edges_len == e && rd.inner.rng_len
                    == r && rd.inner.data_shape@ == shape,
            },
            res matches Some(rd) ==> rd.inner.rng_len >= 16 && prefix_products_fit(rd.inner.data_shape@),
    {
        match backup_lengths_of(dtype, "edges") {
            Some((edges_len, rng_len, data_shape)) => Some(
                SaveEdgesReader { inner: BackupReader { edges_len, rng_len, data_shape } },
            ),
            None => None,
        }
    }

    pub fn read_one(&self, bytes: &[u8]) -> (res: SaveEdges)
        requires
            self.inner.rng_len >= 16,
            prefix_products_fit(self.inner.data_shape@),
            crate::experiment::backup::deserializer::reboot_seed_len(
                self.inner.edges_len as int,
                self.inner.rng_len as int,
            ) + shape_product(self.inner.data_shape@) + RUN_INFO_BYTES <= bytes@.len(),
        ensures
            backup_at(
                bytes@,
                self.inner.edges_len as int,
                self.inner.rng_len as int,
                self.inner.data_shape@,
                as_backup(res),
            ),
            res.reboot_seed.last_state.rng_gen.wf(),
    {
        let b = self.inner.read_one(bytes);
        SaveEdges { reboot_seed: b.reboot_seed, edges: b.backup_data.recorded_data, run_info: b.run_info }
    }
}

/// Writes the phase of every edge of `experiment`, in the lattice's order,
/// into recording `recording_number` of `edges_recordings`: with `E` edges,
/// the elements `recording_number * E ..< (recording_number + 1) * E` of the
/// row-major data.
pub fn record_edges<const ZORDER: usize>(
    experiment: &Experiment<ZORDER>,
    edges_recordings: &mut DynArray<u8>,
    recording_number: usize,
)
    requires
        (recording_number + 1) * experiment.sim.edges@.len() <= old(edges_recordings).data@.len(),
    ensures
        final(edges_recordings).shape@ == old(edges_recordings).shape@,
        final(edges_recordings).data@.len() == old(edges_recordings).data@.len(),
        forall|k: int|
            0 <= k < final(edges_recordings).data@.len() ==> #[trigger] final(edges_recordings).data@[k] == (
            if recording_number * experiment.sim.edges@.len() <= k < (recording_number + 1)
                * experiment.sim.edges@.len() {
                experiment.sim.edges@[k - recording_number * experiment.sim.edges@.len()].phase as u8
            } else {
                old(edges_recordings).data@[k]
            }),
{
    let n_edges = experiment.sim.edges.len();
    let len = edges_recordings.data.len();
    assert(recording_number * n_edges + n_edges <= len) by (nonlinear_arith)
        requires
            (recording_number + 1) * n_edges <= len,
    ;
    let base = recording_number * n_edges;
    let mut i: usize = 0;
    while i < n_edges
        invariant
            n_edges == experiment.sim.edges@.len(),
            base == recording_number * n_edges,
            base + n_edges <= len,
            edges_recordings.data@.len() == len,
            edges_recordings.shape@ == old(edges_recordings).shape@,
            0 <= i <= n_edges,
            forall|k: int|
                0 <= k < len ==> #[trigger] edges_recordings.data@[k] == (if base <= k < base + i {
                    experiment.sim.edges@[k - base].phase as u8
                } else {
                    old(edges_recordings).data@[k]
                }),
        decreases n_edges - i,
    {
        edges_recordings.data.set(base + i, experiment.sim.edges[i].phase as u8);
        i += 1;
    }
    assert((recording_number + 1) * n_edges == base + n_edges) by (nonlinear_arith)
        requires
            base == recording_number * n_edges,
    ;
}

} // verus!
