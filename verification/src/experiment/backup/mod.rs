pub mod backup;
pub mod deserializer;
pub mod layout;
pub mod npy;
pub mod serializer;

use vstd::prelude::*;

use crate::arrays::DynArray;
use crate::experiment::experiment::{
    copy_bytes, f32_is_nan, is_reboot_of, is_seed_of, law_reboot_restores_experiment, same_run, seed_shape, Experiment,
};
use crate::gauge_fields::cubical::volume;
use crate::measurements::backup::backup_fragments::{ExperimentParameters, LastState, RebootSeed, RunInfo};
use crate::measurements::rng_gen_wrapper::RngGenWrapper;

verus! {

/// A flat backup of a run: the edge phases, the generator, the counters,
/// the recordings and the run information.
#[derive(Debug)]
pub struct LatticeBackup {
    pub edges_flat_data: Vec<u8>,
    pub rng_gen: RngGenWrapper,
    pub performed_updates: u64,
    pub accepted_updates: u64,
    pub recordings: DynArray<u8>,
    pub run_info: RunInfo,
}

/// `b` holds the state of `e`: its edge phases as bytes, in edge order, its
/// generator and its counters.
pub open spec fn is_flat_backup_of<const ZORDER: usize>(e: Experiment<ZORDER>, b: LatticeBackup) -> bool {
    &&& b.edges_flat_data@.len() == e.sim.edges@.len()
    &&& forall|i: int|
        0 <= i < e.sim.edges@.len() ==> #[trigger] b.edges_flat_data@[i] as usize == e.sim.edges@[i].phase
    &&& b.rng_gen.rng_gen@ == e.rng_gen.rng_gen@
    &&& b.performed_updates == e.performed_updates
    &&& b.accepted_updates == e.accepted_updates
}

/// The parameters that `e` was started with, as a seed records them.
pub open spec fn parameters_of<const ZORDER: usize>(e: Experiment<ZORDER>) -> ExperimentParameters {
    ExperimentParameters {
        shape: [e.shape[0] as u32, e.shape[1] as u32, e.shape[2] as u32, e.shape[3] as u32],
        z_order: ZORDER as u32,
        beta_bits: e.beta_bits,
        lambda_bits: e.lambda_bits,
        rng_seed: e.rng_seed,
    }
}

/// The flat backup of `experiment` with the given recordings.
pub fn backup_experiment<const ZORDER: usize>(
    experiment: &Experiment<ZORDER>,
    run_info: RunInfo,
    recordings: DynArray<u8>,
) -> (res: LatticeBackup)
    requires
        forall|i: int| 0 <= i < experiment.sim.edges@.len() ==> (#[trigger] experiment.sim.edges@[i]).phase <= 255,
    ensures
        is_flat_backup_of(*experiment, res),
        res.recordings == recordings,
        res.run_info == run_info,
{
    let mut edges_flat_data: Vec<u8> = Vec::new();
    let n = experiment.sim.edges.len();
    let mut i: usize = 0;
    while i < n
        invariant
            n == experiment.sim.edges@.len(),
            forall|i: int| 0 <= i < n ==> (#[trigger] experiment.sim.edges@[i]).phase <= 255,
            0 <= i <= n,
            edges_flat_data@.len() == i,
            forall|j: int|
                0 <= j < i ==> #[trigger] edges_flat_data@[j] as usize == experiment.sim.edges@[j].phase,
        decreases n - i,
    {
        let phase = experiment.sim.edges[i].phase;
        edges_flat_data.push(phase as u8);
        i += 1;
    }
    LatticeBackup {
        edges_flat_data,
        rng_gen: RngGenWrapper { rng_gen: copy_bytes(&experiment.rng_gen.rng_gen) },
        performed_updates: experiment.performed_updates,
        accepted_updates: experiment.accepted_updates,
        recordings,
        run_info,
    }
}

/// The seed that a flat backup and the parameters of its run describe:
/// the backup's edge phases, generator and counters, with those parameters.
pub open spec fn seed_of_backup(b: LatticeBackup, parameters: ExperimentParameters) -> RebootSeed {
    RebootSeed {
        last_state: LastState {
            edges: b.edges_flat_data,
            rng_gen: b.rng_gen,
            performed_updates: b.performed_updates,
            accepted_updates: b.accepted_updates,
        },
        experiment_parameters: parameters,
    }
}

impl LatticeBackup {
    /// Restarts the run of this backup on the lattice shape and with the
    /// couplings of `parameters`, as `Experiment::reboot_experiment` restarts
    /// it from the seed of the backup's state and those parameters.
    pub fn reboot_experiment<const ZORDER: usize>(&self, parameters: ExperimentParameters) -> (res: Experiment<ZORDER>)
        requires
            ZORDER == 3,
            6 * volume(seed_shape(seed_of_backup(*self, parameters))) <= usize::MAX,
            self.rng_gen.wf(),
            forall|i: int|
                0 <= i < self.edges_flat_data@.len() && i < 4 * volume(seed_shape(seed_of_backup(*self, parameters)))
                    ==> #[trigger] self.edges_flat_data@[i] < ZORDER,
        ensures
            is_reboot_of(seed_of_backup(*self, parameters), res),
    {
        let seed = RebootSeed {
            last_state: LastState {
                edges: copy_bytes(&self.edges_flat_data),
                rng_gen: RngGenWrapper { rng_gen: copy_bytes(&self.rng_gen.rng_gen) },
                performed_updates: self.performed_updates,
                accepted_updates: self.accepted_updates,
            },
            experiment_parameters: parameters,
        };
        let ghost spec_seed = seed_of_backup(*self, parameters);
        assert(seed_shape(seed) == seed_shape(spec_seed));
        let res = Experiment::<ZORDER>::reboot_experiment(seed);
        assert(is_reboot_of(spec_seed, res));
        res
    }
}

/// Backing a Z_3 run up and restarting it from the backup with the run's own
/// parameters gives the run back: the same cells, edge phases, face and cube
/// data, generator, counters, shape, couplings and generator seed, so that
/// the two compare equal unless a coupling is a NaN. (The parameters store
/// the shape as `u32`, so the shape must fit in one.)
pub proof fn law_backup_reboot_restores_experiment<const ZORDER: usize>(
    e: Experiment<ZORDER>,
    b: LatticeBackup,
    r: Experiment<ZORDER>,
)
    requires
        ZORDER == 3,
        e.wf(),
        e.shape[0] <= u32::MAX && e.shape[1] <= u32::MAX,
        e.shape[2] <= u32::MAX && e.shape[3] <= u32::MAX,
        is_flat_backup_of(e, b),
        is_reboot_of(seed_of_backup(b, parameters_of(e)), r),
    ensures
        r.sim.same_cells(&e.sim),
        r.sim.edges@ == e.sim.edges@,
        r.sim.faces@ == e.sim.faces@,
        r.sim.cubes@ == e.sim.cubes@,
        r.rng_gen.rng_gen@ == e.rng_gen.rng_gen@,
        r.performed_updates == e.performed_updates,
        r.accepted_updates == e.accepted_updates,
        r.shape == e.shape,
        r.beta_bits == e.beta_bits,
        r.lambda_bits == e.lambda_bits,
        r.rng_seed == e.rng_seed,
        !f32_is_nan(e.beta_bits) && !f32_is_nan(e.lambda_bits) ==> same_run(&r, &e) && same_run(&e, &r),
{
    let seed = seed_of_backup(b, parameters_of(e));
    assert forall|i: int| 0 <= i < e.sim.edges@.len() implies #[trigger] seed.last_state.edges@[i]
        == e.sim.edges@[i].phase as u8 by {
        assert(b.edges_flat_data@[i] as usize == e.sim.edges@[i].phase);
    }
    assert(is_seed_of(e, seed));
    law_reboot_restores_experiment(e, seed, r);
}

} // verus!
