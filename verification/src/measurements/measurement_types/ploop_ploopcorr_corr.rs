//! A measurement that records Polyakov loops and plaquette correlators. The
//! `f32` recordings are held by their bit patterns; they are only moved,
//! never computed on, here.
use vstd::prelude::*;

use crate::arrays::{
    arrays_mergeable, concat_data, law_stack_regroup, lemma_same_views_stack, same_views, stack_arrays, stacked_shape,
    DynArray,
};
use crate::experiment::experiment::{is_seed_of, Experiment};
use crate::measurements::backup::backup_fragments::{
    lemma_recordings_sum_split, merge_run_infos, recordings_sum, RebootSeed, RunInfo,
};

verus! {

/// The recordings of one backup, recording index first. The arrays of
/// `f32` values hold their bit patterns.
#[derive(Clone, Debug, PartialEq)]
pub struct PloopCorrRecordings {
    pub polyakov_loops: DynArray<u8>,
    pub polyakov_loop_correlators: DynArray<u32>,
    pub pp_correlators: DynArray<u32>,
    pub average_plaquette: DynArray<u32>,
    pub pp_correlators_differences: DynArray<u64>,
    pub average_plaquette_integer: DynArray<u64>,
    pub lateral_correlators: DynArray<u64>,
    pub longitudinal_correlators: DynArray<u64>,
}

#[derive(Clone, Debug, PartialEq)]
pub struct SavePloopPloopCorrCorr {
    pub reboot_seed: RebootSeed,
    pub run_info: RunInfo,
    pub ploop_corr_recordings: PloopCorrRecordings,
}

/// The run information of the backups, in order.
pub open spec fn run_infos(backups: Seq<SavePloopPloopCorrCorr>) -> Seq<RunInfo> {
    backups.map_values(|b: SavePloopPloopCorrCorr| b.run_info)
}

/// The `polyakov_loops` arrays of the backups, in order.
pub open spec fn all_polyakov_loops(backups: Seq<SavePloopPloopCorrCorr>) -> Seq<DynArray<u8>> {
    backups.map_values(|b: SavePloopPloopCorrCorr| b.ploop_corr_recordings.polyakov_loops)
}

/// The `polyakov_loop_correlators` arrays of the backups, in order.
pub open spec fn all_polyakov_loop_correlators(backups: Seq<SavePloopPloopCorrCorr>) -> Seq<DynArray<u32>> {
    backups.map_values(|b: SavePloopPloopCorrCorr| b.ploop_corr_recordings.polyakov_loop_correlators)
}

/// The `pp_correlators` arrays of the backups, in order.
pub open spec fn all_pp_correlators(backups: Seq<SavePloopPloopCorrCorr>) -> Seq<DynArray<u32>> {
    backups.map_values(|b: SavePloopPloopCorrCorr| b.ploop_corr_recordings.pp_correlators)
}

/// The `average_plaquette` arrays of the backups, in order.
pub open spec fn all_average_plaquette(backups: Seq<SavePloopPloopCorrCorr>) -> Seq<DynArray<u32>> {
    backups.map_values(|b: SavePloopPloopCorrCorr| b.ploop_corr_recordings.average_plaquette)
}

/// The `pp_correlators_differences` arrays of the backups, in order.
pub open spec fn all_pp_correlators_differences(backups: Seq<SavePloopPloopCorrCorr>) -> Seq<DynArray<u64>> {
    backups.map_values(|b: SavePloopPloopCorrCorr| b.ploop_corr_recordings.pp_correlators_differences)
}

/// The `average_plaquette_integer` arrays of the backups, in order.
pub open spec fn all_average_plaquette_integer(backups: Seq<SavePloopPloopCorrCorr>) -> Seq<DynArray<u64>> {
    backups.map_values(|b: SavePloopPloopCorrCorr| b.ploop_corr_recordings.average_plaquette_integer)
}

/// The `lateral_correlators` arrays of the backups, in order.
pub open spec fn all_lateral_correlators(backups: Seq<SavePloopPloopCorrCorr>) -> Seq<DynArray<u64>> {
    backups.map_values(|b: SavePloopPloopCorrCorr| b.ploop_corr_recordings.lateral_correlators)
}

/// The `longitudinal_correlators` arrays of the backups, in order.
pub open spec fn all_longitudinal_correlators(backups: Seq<SavePloopPloopCorrCorr>) -> Seq<DynArray<u64>> {
    backups.map_values(|b: SavePloopPloopCorrCorr| b.ploop_corr_recordings.longitudinal_correlators)
}

/// The backups can be merged: every recorded array stacks along its first
/// axis, and the recording counts add up within a `u32`.
pub open spec fn ploop_mergeable(backups: Seq<SavePloopPloopCorrCorr>) -> bool {
    &&& arrays_mergeable(all_polyakov_loops(backups))
    &&& arrays_mergeable(all_polyakov_loop_correlators(backups))
    &&& arrays_mergeable(all_pp_correlators(backups))
    &&& arrays_mergeable(all_average_plaquette(backups))
    &&& arrays_mergeable(all_pp_correlators_differences(backups))
    &&& arrays_mergeable(all_average_plaquette_integer(backups))
    &&& arrays_mergeable(all_lateral_correlators(backups))
    &&& arrays_mergeable(all_longitudinal_correlators(backups))
    &&& recordings_sum(run_infos(backups)) <= u32::MAX
}

/// `res` is what merging `backups` gives: the last backup, with every
/// recorded array stacked along its first axis, the recording counts summed
/// and backup number `1`.
pub open spec fn is_ploop_merge_of(res: SavePloopPloopCorrCorr, backups: Seq<SavePloopPloopCorrCorr>) -> bool {
    &&& res.reboot_seed == backups.last().reboot_seed
    &&& res.run_info == (RunInfo {
        recordings: recordings_sum(run_infos(backups)) as u32,
        backup_number: 1,
        ..backups.last().run_info
    })
    &&& res.ploop_corr_recordings.polyakov_loops.shape@ == stacked_shape(all_polyakov_loops(backups))
    &&& res.ploop_corr_recordings.polyakov_loops.data@ == concat_data(all_polyakov_loops(backups))
    &&& res.ploop_corr_recordings.polyakov_loop_correlators.shape@ == stacked_shape(
        all_polyakov_loop_correlators(backups),
    )
    &&& res.ploop_corr_recordings.polyakov_loop_correlators.data@ == concat_data(
        all_polyakov_loop_correlators(backups),
    )
    &&& res.ploop_corr_recordings.pp_correlators.shape@ == stacked_shape(all_pp_correlators(backups))
    &&& res.ploop_corr_recordings.pp_correlators.data@ == concat_data(all_pp_correlators(backups))
    &&& res.ploop_corr_recordings.average_plaquette.shape@ == stacked_shape(all_average_plaquette(backups))
    &&& res.ploop_corr_recordings.average_plaquette.data@ == concat_data(all_average_plaquette(backups))
    &&& res.ploop_corr_recordings.pp_correlators_differences.shape@ == stacked_shape(
        all_pp_correlators_differences(backups),
    )
    &&& res.ploop_corr_recordings.pp_correlators_differences.data@ == concat_data(
        all_pp_correlators_differences(backups),
    )
    &&& res.ploop_corr_recordings.average_plaquette_integer.shape@ == stacked_shape(
        all_average_plaquette_integer(backups),
    )
    &&& res.ploop_corr_recordings.average_plaquette_integer.data@ == concat_data(
        all_average_plaquette_integer(backups),
    )
    &&& res.ploop_corr_recordings.lateral_correlators.shape@ == stacked_shape(all_lateral_correlators(backups))
    &&& res.ploop_corr_recordings.lateral_correlators.data@ == concat_data(all_lateral_correlators(backups))
    &&& res.ploop_corr_recordings.longitudinal_correlators.shape@ == stacked_shape(
        all_longitudinal_correlators(backups),
    )
    &&& res.ploop_corr_recordings.longitudinal_correlators.data@ == concat_data(
        all_longitudinal_correlators(backups),
    )
}

/// Merging is associative: merging a run of consecutive backups first and
/// then the list with that run replaced by its merge describes the same
/// backup as merging the whole list at once; where the whole list can be
/// merged, so can the run and the regrouped list.
pub proof fn law_ploop_merge_regroup(
    l: Seq<SavePloopPloopCorrCorr>,
    a: Seq<SavePloopPloopCorrCorr>,
    r: Seq<SavePloopPloopCorrCorr>,
    m: SavePloopPloopCorrCorr,
    z: SavePloopPloopCorrCorr,
)
    requires
        ploop_mergeable(l + a + r),
        a.len() > 0,
        is_ploop_merge_of(m, a),
    ensures
        ploop_mergeable(a),
        ploop_mergeable(l + seq![m] + r),
        is_ploop_merge_of(z, l + seq![m] + r) == is_ploop_merge_of(z, l + a + r),
{
    let x = l + a + r;
    let y = l + seq![m] + r;
    let k = m.ploop_corr_recordings;
    assert(all_polyakov_loops(x) =~= all_polyakov_loops(l) + all_polyakov_loops(a) + all_polyakov_loops(r));
    assert(all_polyakov_loops(y) =~= all_polyakov_loops(l) + seq![k.polyakov_loops] + all_polyakov_loops(r));
    law_stack_regroup(all_polyakov_loops(l), all_polyakov_loops(a), all_polyakov_loops(r), k.polyakov_loops);
    assert(all_polyakov_loop_correlators(x) =~= all_polyakov_loop_correlators(l) + all_polyakov_loop_correlators(a)
        + all_polyakov_loop_correlators(r));
    assert(all_polyakov_loop_correlators(y) =~= all_polyakov_loop_correlators(l) + seq![k.polyakov_loop_correlators]
        + all_polyakov_loop_correlators(r));
    law_stack_regroup(
        all_polyakov_loop_correlators(l),
        all_polyakov_loop_correlators(a),
        all_polyakov_loop_correlators(r),
        k.polyakov_loop_correlators,
    );
    assert(all_pp_correlators(x) =~= all_pp_correlators(l) + all_pp_correlators(a) + all_pp_correlators(r));
    assert(all_pp_correlators(y) =~= all_pp_correlators(l) + seq![k.pp_correlators] + all_pp_correlators(r));
    law_stack_regroup(all_pp_correlators(l), all_pp_correlators(a), all_pp_correlators(r), k.pp_correlators);
    assert(all_average_plaquette(x) =~= all_average_plaquette(l) + all_average_plaquette(a) + all_average_plaquette(r));
    assert(all_average_plaquette(y) =~= all_average_plaquette(l) + seq![k.average_plaquette] + all_average_plaquette(
        r,
    ));
    law_stack_regroup(
        all_average_plaquette(l),
        all_average_plaquette(a),
        all_average_plaquette(r),
        k.average_plaquette,
    );
    assert(all_pp_correlators_differences(x) =~= all_pp_correlators_differences(l) + all_pp_correlators_differences(a)
        + all_pp_correlators_differences(r));
    assert(all_pp_correlators_differences(y) =~= all_pp_correlators_differences(l) + seq![
        k.pp_correlators_differences,
    ] + all_pp_correlators_differences(r));
    law_stack_regroup(
        all_pp_correlators_differences(l),
        all_pp_correlators_differences(a),
        all_pp_correlators_differences(r),
        k.pp_correlators_differences,
    );
    assert(all_average_plaquette_integer(x) =~= all_average_plaquette_integer(l) + all_average_plaquette_integer(a)
        + all_average_plaquette_integer(r));
    assert(all_average_plaquette_integer(y) =~= all_average_plaquette_integer(l) + seq![k.average_plaquette_integer]
        + all_average_plaquette_integer(r));
    law_stack_regroup(
        all_average_plaquette_integer(l),
        all_average_plaquette_integer(a),
        all_average_plaquette_integer(r),
        k.average_plaquette_integer,
    );
    assert(all_lateral_correlators(x) =~= all_lateral_correlators(l) + all_lateral_correlators(a)
        + all_lateral_correlators(r));
    assert(all_lateral_correlators(y) =~= all_lateral_correlators(l) + seq![k.lateral_correlators]
        + all_lateral_correlators(r));
    law_stack_regroup(
        all_lateral_correlators(l),
        all_lateral_correlators(a),
        all_lateral_correlators(r),
        k.lateral_correlators,
    );
    assert(all_longitudinal_correlators(x) =~= all_longitudinal_correlators(l) + all_longitudinal_correlators(a)
        + all_longitudinal_correlators(r));
    assert(all_longitudinal_correlators(y) =~= all_longitudinal_correlators(l) + seq![k.longitudinal_correlators]
        + all_longitudinal_correlators(r));
    law_stack_regroup(
        all_longitudinal_correlators(l),
        all_longitudinal_correlators(a),
        all_longitudinal_correlators(r),
        k.longitudinal_correlators,
    );
    // recording counts
    assert(run_infos(x) =~= run_infos(l) + run_infos(a) + run_infos(r));
    assert(run_infos(y) =~= run_infos(l) + seq![m.run_info] + run_infos(r));
    lemma_recordings_sum_split(run_infos(l) + run_infos(a), run_infos(r));
    lemma_recordings_sum_split(run_infos(l), run_infos(a));
    lemma_recordings_sum_split(run_infos(l) + seq![m.run_info], run_infos(r));
    lemma_recordings_sum_split(run_infos(l), seq![m.run_info]);
    lemma_recordings_sum_split(Seq::<RunInfo>::empty(), run_infos(l));
    assert(Seq::<RunInfo>::empty() + run_infos(l) =~= run_infos(l));
    assert(seq![m.run_info].drop_last() =~= Seq::<RunInfo>::empty());
    assert(recordings_sum(seq![m.run_info]) == m.run_info.recordings);
    assert(recordings_sum(run_infos(a)) <= recordings_sum(run_infos(x)));
    assert(ploop_mergeable(a));
    assert(recordings_sum(run_infos(y)) == recordings_sum(run_infos(x)));
    assert(ploop_mergeable(y));
    // the last backup
    if r.len() > 0 {
        assert(y.last() == r.last());
        assert(x.last() == r.last());
    } else {
        assert(y.last() == m);
        assert(x.last() == a.last());
    }
}

impl SavePloopPloopCorrCorr {
    /// The backup of `experiment` holding `recordings` and `run_info`.
    pub fn new<const ZORDER: usize>(
        experiment: &Experiment<ZORDER>,
        recordings: PloopCorrRecordings,
        run_info: RunInfo,
    ) -> (res: Self)
        ensures
            is_seed_of(*experiment, res.reboot_seed),
            res.ploop_corr_recordings == recordings,
            res.run_info == run_info,
    {
        SavePloopPloopCorrCorr { reboot_seed: experiment.to_seed(), run_info, ploop_corr_recordings: recordings }
    }

    /// Merges consecutive backups of one run: the last backup, with every
    /// recorded array stacked along its first axis, the recording counts
    /// summed and backup number `1`.
    pub fn merge(backups: Vec<SavePloopPloopCorrCorr>) -> (res: SavePloopPloopCorrCorr)
        requires
            ploop_mergeable(backups@),
        ensures
            is_ploop_merge_of(res, backups@),
    {
        let mut backups = backups;
        let ghost bs = backups@;
        let mut infos: Vec<RunInfo> = Vec::new();
        let mut v_polyakov_loops: Vec<DynArray<u8>> = Vec::new();
        let mut v_polyakov_loop_correlators: Vec<DynArray<u32>> = Vec::new();
        let mut v_pp_correlators: Vec<DynArray<u32>> = Vec::new();
        let mut v_average_plaquette: Vec<DynArray<u32>> = Vec::new();
        let mut v_pp_correlators_differences: Vec<DynArray<u64>> = Vec::new();
        let mut v_average_plaquette_integer: Vec<DynArray<u64>> = Vec::new();
        let mut v_lateral_correlators: Vec<DynArray<u64>> = Vec::new();
        let mut v_longitudinal_correlators: Vec<DynArray<u64>> = Vec::new();
        let mut i: usize = 0;
        while i < backups.len()
            invariant
                backups@ == bs,
                0 <= i <= bs.len(),
                infos@ == run_infos(bs.take(i as int)),
                same_views(v_polyakov_loops@, all_polyakov_loops(bs.take(i as int))),
                same_views(v_polyakov_loop_correlators@, all_polyakov_loop_correlators(bs.take(i as int))),
                same_views(v_pp_correlators@, all_pp_correlators(bs.take(i as int))),
                same_views(v_average_plaquette@, all_average_plaquette(bs.take(i as int))),
                same_views(v_pp_correlators_differences@, all_pp_correlators_differences(bs.take(i as int))),
                same_views(v_average_plaquette_integer@, all_average_plaquette_integer(bs.take(i as int))),
                same_views(v_lateral_correlators@, all_lateral_correlators(bs.take(i as int))),
                same_views(v_longitudinal_correlators@, all_longitudinal_correlators(bs.take(i as int))),
            decreases bs.len() - i,
        {
            let b = &backups[i];
            infos.push(b.run_info);
            v_polyakov_loops.push(b.ploop_corr_recordings.polyakov_loops.copy());
            v_polyakov_loop_correlators.push(b.ploop_corr_recordings.polyakov_loop_correlators.copy());
            v_pp_correlators.push(b.ploop_corr_recordings.pp_correlators.copy());
            v_average_plaquette.push(b.ploop_corr_recordings.average_plaquette.copy());
            v_pp_correlators_differences.push(b.ploop_corr_recordings.pp_correlators_differences.copy());
            v_average_plaquette_integer.push(b.ploop_corr_recordings.average_plaquette_integer.copy());
            v_lateral_correlators.push(b.ploop_corr_recordings.lateral_correlators.copy());
            v_longitudinal_correlators.push(b.ploop_corr_recordings.longitudinal_correlators.copy());
            assert(infos@ =~= run_infos(bs.take(i + 1)));
            assert(same_views(v_polyakov_loops@, all_polyakov_loops(bs.take(i + 1))));
            assert(same_views(v_polyakov_loop_correlators@, all_polyakov_loop_correlators(bs.take(i + 1))));
            assert(same_views(v_pp_correlators@, all_pp_correlators(bs.take(i + 1))));
            assert(same_views(v_average_plaquette@, all_average_plaquette(bs.take(i + 1))));
            assert(same_views(v_pp_correlators_differences@, all_pp_correlators_differences(bs.take(i + 1))));
            assert(same_views(v_average_plaquette_integer@, all_average_plaquette_integer(bs.take(i + 1))));
            assert(same_views(v_lateral_correlators@, all_lateral_correlators(bs.take(i + 1))));
            assert(same_views(v_longitudinal_correlators@, all_longitudinal_correlators(bs.take(i + 1))));
            i += 1;
        }
        assert(bs.take(bs.len() as int) =~= bs);
        proof {
            lemma_same_views_stack(v_polyakov_loops@, all_polyakov_loops(bs));
            lemma_same_views_stack(v_polyakov_loop_correlators@, all_polyakov_loop_correlators(bs));
            lemma_same_views_stack(v_pp_correlators@, all_pp_correlators(bs));
            lemma_same_views_stack(v_average_plaquette@, all_average_plaquette(bs));
            lemma_same_views_stack(v_pp_correlators_differences@, all_pp_correlators_differences(bs));
            lemma_same_views_stack(v_average_plaquette_integer@, all_average_plaquette_integer(bs));
            lemma_same_views_stack(v_lateral_correlators@, all_lateral_correlators(bs));
            lemma_same_views_stack(v_longitudinal_correlators@, all_longitudinal_correlators(bs));
        }
        let m_polyakov_loops = stack_arrays(&v_polyakov_loops);
        let m_polyakov_loop_correlators = stack_arrays(&v_polyakov_loop_correlators);
        let m_pp_correlators = stack_arrays(&v_pp_correlators);
        let m_average_plaquette = stack_arrays(&v_average_plaquette);
        let m_pp_correlators_differences = stack_arrays(&v_pp_correlators_differences);
        let m_average_plaquette_integer = stack_arrays(&v_average_plaquette_integer);
        let m_lateral_correlators = stack_arrays(&v_lateral_correlators);
        let m_longitudinal_correlators = stack_arrays(&v_longitudinal_correlators);
        let run_info = merge_run_infos(&infos);
        let mut backup = backups.pop().unwrap();
        backup.run_info = run_info;
        backup.ploop_corr_recordings = PloopCorrRecordings {
            polyakov_loops: m_polyakov_loops,
            polyakov_loop_correlators: m_polyakov_loop_correlators,
            pp_correlators: m_pp_correlators,
            average_plaquette: m_average_plaquette,
            pp_correlators_differences: m_pp_correlators_differences,
            average_plaquette_integer: m_average_plaquette_integer,
            lateral_correlators: m_lateral_correlators,
            longitudinal_correlators: m_longitudinal_correlators,
        };
        backup
    }
}

} // verus!
