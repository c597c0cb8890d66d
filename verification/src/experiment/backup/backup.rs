//! A backup of a measurement run: the seed that restarts the run, the data
//! recorded since the last backup, and the bookkeeping of the run.
use vstd::prelude::*;

use crate::arrays::{
    concat_data, concatenate_first_axis, first_axis_total, law_stack_regroup, lemma_same_views_stack, nonzero_product,
    same_views, stackable, stacked_shape, DynArray,
};
use crate::measurements::backup::backup_fragments::{RebootSeed, RunInfo};

verus! {

#[derive(Clone, Debug, PartialEq)]
pub struct BackUp {
    pub reboot_seed: RebootSeed,
    pub backup_data: BackupData,
    pub run_info: RunInfo,
}

/// The recordings of one backup, with the recording index as first axis.
#[derive(Clone, Debug, PartialEq)]
pub struct BackupData {
    pub recorded_data: DynArray<u8>,
}

/// Sum of the recording counts of the backups.
pub open spec fn total_recordings(backups: Seq<BackUp>) -> int
    decreases backups.len(),
{
    if backups.len() == 0 {
        0
    } else {
        total_recordings(backups.drop_last()) + backups.last().run_info.recordings
    }
}

/// The recorded arrays of the backups, in order.
pub open spec fn recorded_arrays(backups: Seq<BackUp>) -> Seq<DynArray<u8>> {
    backups.map_values(|b: BackUp| b.backup_data.recorded_data)
}

/// The backups can be merged: there is at least one, their recordings stack
/// along the first axis into an array that ndarray can hold, and the
/// recording counts add up within a `u32`.
pub open spec fn mergeable(backups: Seq<BackUp>) -> bool {
    &&& forall|i: int| 0 <= i < backups.len() ==> (#[trigger] backups[i]).backup_data.recorded_data.wf()
    &&& stackable(recorded_arrays(backups))
    &&& first_axis_total(recorded_arrays(backups)) <= usize::MAX
    &&& nonzero_product(stacked_shape(recorded_arrays(backups))) <= isize::MAX
    &&& total_recordings(backups) <= u32::MAX
}

/// Recording counts add up along a split of the list, and never below zero.
proof fn lemma_total_split(s: Seq<BackUp>, t: Seq<BackUp>)
    ensures
        total_recordings(s + t) == total_recordings(s) + total_recordings(t),
        total_recordings(t) >= 0,
    decreases t.len(),
{
    if t.len() == 0 {
        assert(s + t =~= s);
    } else {
        lemma_total_split(s, t.drop_last());
        assert((s + t).drop_last() =~= s + t.drop_last());
        assert((s + t).last() == t.last());
    }
}

/// `res` is what merging `backups` gives: the last backup, with the
/// recordings of all stacked in order, the recording counts summed and
/// backup number `1`.
pub open spec fn is_merge_of(res: BackUp, backups: Seq<BackUp>) -> bool {
    &&& res.reboot_seed == backups.last().reboot_seed
    &&& res.run_info == (RunInfo {
        recordings: total_recordings(backups) as u32,
        backup_number: 1,
        ..backups.last().run_info
    })
    &&& res.backup_data.recorded_data.shape@ == stacked_shape(recorded_arrays(backups))
    &&& res.backup_data.recorded_data.data@ == concat_data(recorded_arrays(backups))
}

/// Merging is associative: merging a run of consecutive backups first and
/// then the list with that run replaced by its merge describes the same
/// backup as merging the whole list at once; where the whole list can be
/// merged, so can the run and the regrouped list.
pub proof fn law_merge_regroup(l: Seq<BackUp>, a: Seq<BackUp>, r: Seq<BackUp>, m: BackUp, z: BackUp)
    requires
        mergeable(l + a + r),
        a.len() > 0,
        is_merge_of(m, a),
    ensures
        mergeable(a),
        mergeable(l + seq![m] + r),
        is_merge_of(z, l + seq![m] + r) == is_merge_of(z, l + a + r),
{
    let x = l + a + r;
    let y = l + seq![m] + r;
    assert(recorded_arrays(x) =~= recorded_arrays(l) + recorded_arrays(a) + recorded_arrays(r));
    assert(recorded_arrays(y) =~= recorded_arrays(l) + seq![m.backup_data.recorded_data] + recorded_arrays(r));
    assert forall|i: int| 0 <= i < recorded_arrays(x).len() implies (#[trigger] recorded_arrays(x)[i]).wf() by {
        assert(recorded_arrays(x)[i] == x[i].backup_data.recorded_data);
    }
    law_stack_regroup(recorded_arrays(l), recorded_arrays(a), recorded_arrays(r), m.backup_data.recorded_data);
    lemma_total_split(l + a, r);
    lemma_total_split(l, a);
    lemma_total_split(l + seq![m], r);
    lemma_total_split(l, seq![m]);
    lemma_total_split(Seq::<BackUp>::empty(), l);
    assert(Seq::<BackUp>::empty() + l =~= l);
    assert(seq![m].drop_last() =~= Seq::<BackUp>::empty());
    assert(total_recordings(seq![m]) == m.run_info.recordings);
    assert forall|i: int| 0 <= i < a.len() implies (#[trigger] a[i]).backup_data.recorded_data.wf() by {
        assert(recorded_arrays(a)[i] == a[i].backup_data.recorded_data);
    }
    assert(mergeable(a));
    assert forall|i: int| 0 <= i < y.len() implies (#[trigger] y[i]).backup_data.recorded_data.wf() by {
        assert(recorded_arrays(y)[i] == y[i].backup_data.recorded_data);
    }
    assert(mergeable(y));
    if r.len() > 0 {
        assert(y.last() == r.last());
        assert(x.last() == r.last());
    } else {
        assert(y.last() == m);
        assert(x.last() == a.last());
    }
}

proof fn lemma_total_prefix(backups: Seq<BackUp>, i: int)
    requires
        0 <= i <= backups.len(),
    ensures
        total_recordings(backups.take(i)) <= total_recordings(backups),
    decreases backups.len() - i,
{
    if i < backups.len() {
        lemma_total_prefix(backups, i + 1);
        assert(backups.take(i + 1).drop_last() =~= backups.take(i));
    } else {
        assert(backups.take(i) =~= backups);
    }
}

impl BackUp {
    /// Merges consecutive backups of one run into one: the last backup, with
    /// the recordings of all stacked in order along the first axis, the
    /// recording counts summed, and backup number `1`.
    pub fn merge_backups(backups: Vec<BackUp>) -> (res: BackUp)
        requires
            mergeable(backups@),
        ensures
            is_merge_of(res, backups@),
    {
        let mut backups = backups;
        let ghost bs = backups@;
        let mut total: u32 = 0;
        let mut arrays: Vec<DynArray<u8>> = Vec::new();
        let mut i: usize = 0;
        while i < backups.len()
            invariant
                backups@ == bs,
                0 <= i <= bs.len(),
                mergeable(bs),
                total == total_recordings(bs.take(i as int)),
                same_views(arrays@, recorded_arrays(bs.take(i as int))),
            decreases bs.len() - i,
        {
            proof {
                lemma_total_prefix(bs, i + 1);
                assert(bs.take(i + 1).drop_last() =~= bs.take(i as int));
            }
            total = total + backups[i].run_info.recordings;
            arrays.push(backups[i].backup_data.recorded_data.duplicate());
            proof {
                assert(same_views(arrays@, recorded_arrays(bs.take(i + 1))));
            }
            i += 1;
        }
        assert(bs.take(bs.len() as int) =~= bs);
        proof {
            lemma_same_views_stack(arrays@, recorded_arrays(bs));
        }
        let merged = concatenate_first_axis(&arrays);
        let mut backup = backups.pop().unwrap();
        backup.run_info.recordings = total;
        backup.backup_data.recorded_data = merged.unwrap();
        backup.run_info.backup_number = 1;
        backup
    }
}

} // verus!
