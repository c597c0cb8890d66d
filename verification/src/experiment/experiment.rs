//! The state of a Monte Carlo run of Z_N gauge theory on a four-dimensional
//! lattice, and its conversion to and from the seed that restarts it.
use vstd::prelude::*;

use crate::gauge_fields::cubical::{is_periodic, lemma_periodic_same_cells, shifted_site, shifted_site_exec, volume, volume_exec};
use crate::gauge_fields::plaquettes::PlaquetteField;
use crate::gauge_fields::edges::EdgeField;
use crate::gauge_fields::lattice::{lemma_consistent_unique, ZNLattice};
use crate::measurements::backup::backup_fragments::{ExperimentParameters, LastState, RebootSeed};
use crate::measurements::rng_gen_wrapper::RngGenWrapper;

verus! {

/// A run of the gauge theory on a `[x, y, z, t]` lattice. The couplings are
/// held by the bit patterns of their `f32` values.
pub struct Experiment<const ZORDER: usize> {
    pub sim: ZNLattice<4, ZORDER>,
    pub shape: [usize; 4],
    pub beta_bits: u32,
    pub lambda_bits: u32,
    pub rng_gen: RngGenWrapper,
    pub rng_seed: u64,
    pub performed_updates: u64,
    pub accepted_updates: u64,
}

/// A copy of `v`.
pub fn copy_bytes(v: &Vec<u8>) -> (res: Vec<u8>)
    ensures
        res@ == v@,
{
    let res = v.clone();
    assert(res@ =~= v@);
    res
}

/// `seed` is the seed that `e` writes: the edge phases as bytes, the
/// generator, the counters, the shape, `ZORDER`, the couplings and the
/// seed the generator started from.
pub open spec fn is_seed_of<const ZORDER: usize>(e: Experiment<ZORDER>, seed: RebootSeed) -> bool {
    &&& seed.last_state.edges@.len() == e.sim.edges@.len()
    &&& forall|i: int|
        0 <= i < e.sim.edges@.len() ==> #[trigger] seed.last_state.edges@[i] == e.sim.edges@[i].phase as u8
    &&& seed.last_state.rng_gen.rng_gen@ == e.rng_gen.rng_gen@
    &&& seed.last_state.performed_updates == e.performed_updates
    &&& seed.last_state.accepted_updates == e.accepted_updates
    &&& seed.experiment_parameters.shape == [
        e.shape[0] as u32,
        e.shape[1] as u32,
        e.shape[2] as u32,
        e.shape[3] as u32,
    ]
    &&& seed.experiment_parameters.z_order == ZORDER as u32
    &&& seed.experiment_parameters.beta_bits == e.beta_bits
    &&& seed.experiment_parameters.lambda_bits == e.lambda_bits
    &&& seed.experiment_parameters.rng_seed == e.rng_seed
}

/// The shape that `seed` records, as `usize`s.
pub open spec fn seed_shape(seed: RebootSeed) -> [usize; 4] {
    [
        seed.experiment_parameters.shape[0] as usize,
        seed.experiment_parameters.shape[1] as usize,
        seed.experiment_parameters.shape[2] as usize,
        seed.experiment_parameters.shape[3] as usize,
    ]
}

/// `e` is the experiment that `seed` restarts: on the periodic lattice of the
/// seed's shape, the first edges take the phases of the seed's bytes (the
/// others are `0`), every face and cube is recomputed, and generator,
/// counters, shape, couplings and generator seed come from the seed.
pub open spec fn is_reboot_of<const ZORDER: usize>(seed: RebootSeed, e: Experiment<ZORDER>) -> bool {
    &&& e.wf()
    &&& e.shape == seed_shape(seed)
    &&& forall|i: int|
        0 <= i < e.sim.edges@.len() ==> (#[trigger] e.sim.edges@[i]).phase == (if i
            < seed.last_state.edges@.len() {
            seed.last_state.edges@[i] as usize
        } else {
            0
        })
    &&& e.rng_gen.rng_gen@ == seed.last_state.rng_gen.rng_gen@
    &&& e.performed_updates == seed.last_state.performed_updates
    &&& e.accepted_updates == seed.last_state.accepted_updates
    &&& e.beta_bits == seed.experiment_parameters.beta_bits
    &&& e.lambda_bits == seed.experiment_parameters.lambda_bits
    &&& e.rng_seed == seed.experiment_parameters.rng_seed
}

impl<const ZORDER: usize> Experiment<ZORDER> {
    /// The lattice is the periodic lattice of `shape`, its face and cube data
    /// agree with its edges, and the generator state is well formed.
    pub open spec fn wf(&self) -> bool {
        &&& self.sim.wf()
        &&& self.sim.consistent()
        &&& is_periodic(self.sim, self.shape)
        &&& self.rng_gen.wf()
    }

    /// A run on the periodic lattice of `shape` at rest (every phase `0`),
    /// with the generator seeded from `rng_seed` and both counters at zero.
    pub fn new(shape: [usize; 4], beta_bits: u32, lambda_bits: u32, rng_seed: u64) -> (res: Self)
        requires
            6 * volume(shape) <= usize::MAX,
            0 < ZORDER,
        ensures
            res.wf(),
            res.shape == shape,
            forall|e: int| 0 <= e < res.sim.edges@.len() ==> (#[trigger] res.sim.edges@[e]).phase == 0,
            res.beta_bits == beta_bits,
            res.lambda_bits == lambda_bits,
            res.rng_seed == rng_seed,
            res.rng_gen.rng_gen@ == crate::measurements::rng_gen_wrapper::pcg64mcg_seeded_bytes(rng_seed),
            res.performed_updates == 0,
            res.accepted_updates == 0,
    {
        let sim = ZNLattice::<4, ZORDER>::periodic(shape);
        let rng_gen = RngGenWrapper::seed_from_u64(rng_seed);
        Experiment {
            sim,
            shape,
            beta_bits,
            lambda_bits,
            rng_gen,
            rng_seed,
            performed_updates: 0,
            accepted_updates: 0,
        }
    }

    /// Draws the proposal for the next update of an edge: a phase uniform in
    /// `0..ZORDER`.
    pub fn propose_update(&mut self) -> (res: EdgeField<4, ZORDER>)
        requires
            old(self).wf(),
            ZORDER > 0,
        ensures
            final(self).wf(),
            (res.phase as u64, final(self).rng_gen.rng_gen@)
                == crate::measurements::rng_gen_wrapper::pcg64mcg_gen_range(
                old(self).rng_gen.rng_gen@,
                ZORDER as u64,
            ),
            res.phase < ZORDER,
            final(self).sim == old(self).sim,
            final(self).performed_updates == old(self).performed_updates,
            final(self).accepted_updates == old(self).accepted_updates,
    {
        let phase = self.rng_gen.gen_range(ZORDER as u64) as usize;
        EdgeField { phase }
    }

    /// Counts one attempted update, and one accepted update if `accepted`.
    pub fn count_update(&mut self, accepted: bool)
        requires
            old(self).performed_updates < u64::MAX,
            old(self).accepted_updates < u64::MAX,
        ensures
            final(self).performed_updates == old(self).performed_updates + 1,
            final(self).accepted_updates == old(self).accepted_updates + (if accepted { 1int } else { 0int }),
            final(self).sim == old(self).sim,
            final(self).rng_gen == old(self).rng_gen,
    {
        if accepted {
            self.accepted_updates += 1;
        }
        self.performed_updates += 1;
    }

    /// The seed that restarts this run: edge phases as bytes, generator,
    /// counters and parameters.
    pub fn to_seed(&self) -> (res: RebootSeed)
        ensures
            is_seed_of(*self, res),
    {
        let mut edges: Vec<u8> = Vec::new();
        let n = self.sim.edges.len();
        let mut i: usize = 0;
        while i < n
            invariant
                n == self.sim.edges@.len(),
                0 <= i <= n,
                edges@.len() == i,
                forall|j: int| 0 <= j < i ==> #[trigger] edges@[j] == self.sim.edges@[j].phase as u8,
            decreases n - i,
        {
            edges.push(self.sim.edges[i].phase as u8);
            i += 1;
        }
        let last_state = LastState {
            edges,
            rng_gen: RngGenWrapper { rng_gen: copy_bytes(&self.rng_gen.rng_gen) },
            performed_updates: self.performed_updates,
            accepted_updates: self.accepted_updates,
        };
        let experiment_parameters = ExperimentParameters {
            shape: [
                self.shape[0] as u32,
                self.shape[1] as u32,
                self.shape[2] as u32,
                self.shape[3] as u32,
            ],
            z_order: ZORDER as u32,
            beta_bits: self.beta_bits,
            lambda_bits: self.lambda_bits,
            rng_seed: self.rng_seed,
        };
        RebootSeed { last_state, experiment_parameters }
    }

    /// Restarts the run that `reboot_seed` describes: builds the periodic
    /// lattice of the seed's shape, sets the edge phases from the seed's
    /// bytes, recomputes every face and cube, and takes generator, counters
    /// and parameters from the seed. Only Z_3 is supported.
    pub fn reboot_experiment(reboot_seed: RebootSeed) -> (res: Self)
        requires
            ZORDER == 3,
            6 * volume(seed_shape(reboot_seed)) <= usize::MAX,
            reboot_seed.last_state.rng_gen.wf(),
            forall|i: int|
                0 <= i < reboot_seed.last_state.edges@.len() && i < 4 * volume(seed_shape(reboot_seed))
                    ==> #[trigger] reboot_seed.last_state.edges@[i] < ZORDER,
        ensures
            is_reboot_of(reboot_seed, res),
    {
        let ghost seed = reboot_seed;
        let p = reboot_seed.experiment_parameters;
        let shape: [usize; 4] = [p.shape[0] as usize, p.shape[1] as usize, p.shape[2] as usize, p.shape[3] as usize];
        assert(shape == seed_shape(seed));
        let mut sim = ZNLattice::<4, ZORDER>::periodic(shape);
        let ghost l0 = sim;
        let n = sim.edges.len();
        let m = reboot_seed.last_state.edges.len();
        let mut i: usize = 0;
        while i < n && i < m
            invariant
                n == sim.edges@.len(),
                n == 4 * volume(shape),
                m == seed.last_state.edges@.len(),
                reboot_seed == seed,
                0 <= i <= n,
                i <= m,
                sim.edges@.len() == l0.edges@.len(),
                sim.same_structure(&l0),
                sim.faces@ == l0.faces@,
                sim.cubes@ == l0.cubes@,
                forall|j: int| 0 <= j < n ==> (#[trigger] l0.edges@[j]).phase == 0,
                forall|j: int|
                    0 <= j < n ==> (#[trigger] sim.edges@[j]).phase == (if j < i {
                        seed.last_state.edges@[j] as usize
                    } else {
                        0
                    }),
            decreases n - i,
        {
            sim.edges.set(i, EdgeField { phase: reboot_seed.last_state.edges[i] as usize });
            i += 1;
        }
        assert forall|j: int| 0 <= j < n implies (#[trigger] sim.edges@[j]).phase == (if j < m {
            seed.last_state.edges@[j] as usize
        } else {
            0
        }) by {
        }
        assert(sim.phases_in_range());
        sim.rebuild_all();
        Experiment {
            sim,
            shape,
            beta_bits: p.beta_bits,
            lambda_bits: p.lambda_bits,
            rng_gen: reboot_seed.last_state.rng_gen,
            rng_seed: p.rng_seed,
            performed_updates: reboot_seed.last_state.performed_updates,
            accepted_updates: reboot_seed.last_state.accepted_updates,
        }
    }
}

/// The class `(3 + h(x) - h(y)) % 3` of pair `i` of `(0, 1)`-plaquettes:
/// with `V` sites, pair `i` compares the plaquette at site `x = i % V` with
/// the one at the site `y` that lies `dist` steps along axis `i / V`.
pub open spec fn pair_class(faces: Seq<PlaquetteField<4, 3>>, s: [usize; 4], dist: int, i: int) -> int {
    let v = volume(s);
    let r = i % v;
    (3 + faces[r].holonomy - faces[shifted_site(s, r, i / v, dist)].holonomy) % 3
}

/// How many of the first `n` pairs have class `k`.
pub open spec fn class_count(faces: Seq<PlaquetteField<4, 3>>, s: [usize; 4], dist: int, k: int, n: int) -> nat
    decreases n,
{
    if n <= 0 {
        0
    } else {
        class_count(faces, s, dist, k, n - 1) + if pair_class(faces, s, dist, n - 1) == k {
            1nat
        } else {
            0nat
        }
    }
}

/// For each class `k` of `0, 1, 2`, the number of pairs of `(0, 1)`
/// plaquettes at distance `dist` along one of the four axes whose holonomies
/// differ by `k` modulo 3; the pairs are `4 V`, one per axis and site.
pub fn holonomy_difference_counts(experiment: &Experiment<3>, dist: usize) -> (res: [u64; 3])
    requires
        experiment.wf(),
    ensures
        forall|k: int|
            0 <= k < 3 ==> res[k] as int == class_count(
                experiment.sim.faces@,
                experiment.shape,
                dist as int,
                k,
                4 * volume(experiment.shape),
            ),
{
    let s = experiment.shape;
    let n_edges = experiment.sim.edges.len();
    let v = volume_exec(s);
    let n = n_edges;
    let ghost faces = experiment.sim.faces@;
    let mut counts: [u64; 3] = [0, 0, 0];
    let mut i: usize = 0;
    while i < n
        invariant
            experiment.wf(),
            s == experiment.shape,
            faces == experiment.sim.faces@,
            v == volume(s),
            n == 4 * volume(s),
            0 <= i <= n,
            forall|k: int| 0 <= k < 3 ==> counts[k] as int == class_count(faces, s, dist as int, k, i as int),
            forall|k: int| 0 <= k < 3 ==> counts[k] <= i,
        decreases n - i,
    {
        let axis = i / v;
        let r = i % v;
        assert(axis < 4 && r < v) by (nonlinear_arith)
            requires
                i < 4 * v,
                axis == i / v,
                r == i % v,
        ;
        let y = shifted_site_exec(s, r, axis, dist);
        proof {
            crate::gauge_fields::cubical::lemma_shifted_site_bound(s, r as int, axis as int, dist as int);
            assert(experiment.sim.face_consistent(r as int));
            assert(experiment.sim.face_consistent(y as int));
        }
        let hx = experiment.sim.faces[r].holonomy;
        let hy = experiment.sim.faces[y].holonomy;
        let class = (3 + hx - hy) % 3;
        assert(class as int == pair_class(faces, s, dist as int, i as int));
        if class == 0 {
            counts[0] = counts[0] + 1;
        } else if class == 1 {
            counts[1] = counts[1] + 1;
        } else {
            counts[2] = counts[2] + 1;
        }
        i += 1;
    }
    counts
}

/// The `f32` whose bit pattern is `b` is a NaN.
pub open spec fn f32_is_nan(b: u32) -> bool {
    (b & 0x7f80_0000u32) == 0x7f80_0000u32 && (b & 0x007f_ffffu32) != 0
}

/// The `f32` values with bit patterns `a` and `b` are equal as IEEE numbers:
/// neither is a NaN, and the patterns are the same or both are zeros.
pub open spec fn f32_bits_eq(a: u32, b: u32) -> bool {
    &&& !f32_is_nan(a)
    &&& !f32_is_nan(b)
    &&& (a == b || ((a & 0x7fff_ffffu32) == 0 && (b & 0x7fff_ffffu32) == 0))
}

/// Whether the `f32` values with bit patterns `a` and `b` are equal.
pub fn f32_bits_equal(a: u32, b: u32) -> (res: bool)
    ensures
        res == f32_bits_eq(a, b),
{
    let a_nan = (a & 0x7f80_0000u32) == 0x7f80_0000u32 && (a & 0x007f_ffffu32) != 0;
    let b_nan = (b & 0x7f80_0000u32) == 0x7f80_0000u32 && (b & 0x007f_ffffu32) != 0;
    !a_nan && !b_nan && (a == b || ((a & 0x7fff_ffffu32) == 0 && (b & 0x7fff_ffffu32) == 0))
}

/// `a` and `b` hold the same state of a run, compared on the cells of `a`:
/// generator, couplings (as `f32` values, so a NaN coupling is never equal),
/// every edge, face and cube of `a`, and both counters. (Shape and generator
/// seed are not compared.)
pub open spec fn same_run<const ZORDER: usize>(a: &Experiment<ZORDER>, b: &Experiment<ZORDER>) -> bool {
    &&& a.rng_gen.rng_gen@ == b.rng_gen.rng_gen@
    &&& f32_bits_eq(a.beta_bits, b.beta_bits)
    &&& f32_bits_eq(a.lambda_bits, b.lambda_bits)
    &&& a.sim.edges@.len() <= b.sim.edges@.len()
    &&& a.sim.faces@.len() <= b.sim.faces@.len()
    &&& a.sim.cubes@.len() <= b.sim.cubes@.len()
    &&& forall|i: int| 0 <= i < a.sim.edges@.len() ==> #[trigger] a.sim.edges@[i] == b.sim.edges@[i]
    &&& forall|i: int| 0 <= i < a.sim.faces@.len() ==> #[trigger] a.sim.faces@[i] == b.sim.faces@[i]
    &&& forall|i: int| 0 <= i < a.sim.cubes@.len() ==> #[trigger] a.sim.cubes@[i] == b.sim.cubes@[i]
    &&& a.performed_updates == b.performed_updates
    &&& a.accepted_updates == b.accepted_updates
}

/// Whether the two byte strings are equal.
pub fn bytes_equal(a: &Vec<u8>, b: &Vec<u8>) -> (res: bool)
    ensures
        res == (a@ == b@),
{
    if a.len() != b.len() {
        return false;
    }
    let mut i: usize = 0;
    while i < a.len()
        invariant
            a@.len() == b@.len(),
            0 <= i <= a@.len(),
            forall|j: int| 0 <= j < i ==> a@[j] == b@[j],
        decreases a@.len() - i,
    {
        if a[i] != b[i] {
            return false;
        }
        i += 1;
    }
    assert(a@ =~= b@);
    true
}

impl<const ZORDER: usize> PartialEq for Experiment<ZORDER> {
    fn eq(&self, other: &Self) -> (res: bool) {
        if !bytes_equal(&self.rng_gen.rng_gen, &other.rng_gen.rng_gen) {
            return false;
        }
        if !f32_bits_equal(self.beta_bits, other.beta_bits) || !f32_bits_equal(self.lambda_bits, other.lambda_bits) {
            return false;
        }
        if self.sim.edges.len() > other.sim.edges.len() || self.sim.faces.len() > other.sim.faces.len()
            || self.sim.cubes.len() > other.sim.cubes.len() {
            return false;
        }
        let mut i: usize = 0;
        while i < self.sim.edges.len()
            invariant
                self.sim.edges@.len() <= other.sim.edges@.len(),
                0 <= i <= self.sim.edges@.len(),
                forall|j: int| 0 <= j < i ==> #[trigger] self.sim.edges@[j] == other.sim.edges@[j],
            decreases self.sim.edges@.len() - i,
        {
            if self.sim.edges[i].phase != other.sim.edges[i].phase {
                assert(self.sim.edges@[i as int] != other.sim.edges@[i as int]);
                return false;
            }
            i += 1;
        }
        let mut i: usize = 0;
        while i < self.sim.faces.len()
            invariant
                self.sim.faces@.len() <= other.sim.faces@.len(),
                0 <= i <= self.sim.faces@.len(),
                forall|j: int| 0 <= j < i ==> #[trigger] self.sim.faces@[j] == other.sim.faces@[j],
            decreases self.sim.faces@.len() - i,
        {
            if self.sim.faces[i].holonomy != other.sim.faces[i].holonomy
                || self.sim.faces[i].dirac_string != other.sim.faces[i].dirac_string {
                assert(self.sim.faces@[i as int] != other.sim.faces@[i as int]);
                return false;
            }
            i += 1;
        }
        let mut i: usize = 0;
        while i < self.sim.cubes.len()
            invariant
                self.sim.cubes@.len() <= other.sim.cubes@.len(),
                0 <= i <= self.sim.cubes@.len(),
                forall|j: int| 0 <= j < i ==> #[trigger] self.sim.cubes@[j] == other.sim.cubes@[j],
            decreases self.sim.cubes@.len() - i,
        {
            if self.sim.cubes[i].charge != other.sim.cubes[i].charge {
                assert(self.sim.cubes@[i as int] != other.sim.cubes@[i as int]);
                return false;
            }
            i += 1;
        }
        self.performed_updates == other.performed_updates && self.accepted_updates == other.accepted_updates
    }
}

impl<const ZORDER: usize> vstd::std_specs::cmp::PartialEqSpecImpl for Experiment<ZORDER> {
    open spec fn obeys_eq_spec() -> bool {
        true
    }

    open spec fn eq_spec(&self, other: &Self) -> bool {
        same_run(self, other)
    }
}

/// Restarting a Z_3 run from the seed it writes gives the run back: the same
/// cells, edge phases, face and cube data, generator, counters, shape,
/// couplings and generator seed, so that the two compare equal unless a
/// coupling is a NaN. (The seed stores the shape as `u32`, so the shape must
/// fit in one.)
pub proof fn law_reboot_restores_experiment<const ZORDER: usize>(
    e: Experiment<ZORDER>,
    seed: RebootSeed,
    r: Experiment<ZORDER>,
)
    requires
        ZORDER == 3,
        e.wf(),
        e.shape[0] <= u32::MAX && e.shape[1] <= u32::MAX,
        e.shape[2] <= u32::MAX && e.shape[3] <= u32::MAX,
        is_seed_of(e, seed),
        is_reboot_of(seed, r),
    ensures
        r.sim.same_cells(&e.sim),
        r.sim.edges@ == e.sim.edges@,
        r.sim.faces@ == e.sim.faces@,
        r.sim.cubes@ == e.sim.cubes@,
        r.rng_gen.rng_gen@ == e.rng_gen.rng_gen@,
        r.performed_updates == e.performed_updates,
        r.accepted_updates == e.accepted_updates,
        r.shape == e.shape,
        r.beta_bits == e.beta_bits,
        r.lambda_bits == e.lambda_bits,
        r.rng_seed == e.rng_seed,
        !f32_is_nan(e.beta_bits) && !f32_is_nan(e.lambda_bits) ==> same_run(&r, &e) && same_run(&e, &r),
{
    assert(r.shape == e.shape);
    lemma_periodic_same_cells(r.sim, e.sim, e.shape);
    assert forall|i: int| 0 <= i < e.sim.edges@.len() implies r.sim.edges@[i] == e.sim.edges@[i] by {
        assert(e.sim.edges@[i].phase < 3);
        assert(seed.last_state.edges@[i] == e.sim.edges@[i].phase as u8);
        assert(r.sim.edges@[i].phase == e.sim.edges@[i].phase);
    }
    assert(r.sim.edges@ =~= e.sim.edges@);
    lemma_consistent_unique(&r.sim, &e.sim);
}

} // verus!
