use z_n_gauge::experiment::experiment::{bytes_equal, f32_bits_equal, holonomy_difference_counts, Experiment};
use z_n_gauge::gauge_fields::cubes::MonopoleField;
use z_n_gauge::gauge_fields::cubical::periodic_cells;
use z_n_gauge::gauge_fields::edges::EdgeField;
use z_n_gauge::gauge_fields::lattice::{vec_contains, ZNLattice};
use z_n_gauge::gauge_fields::plaquettes::{calculate_dirac_string, PlaquetteField};

fn small_lattice() -> ZNLattice<4, 3> {
    ZNLattice::<4, 3>::periodic([2, 2, 2, 2])
}

#[test]
fn periodic_lattice_counts_cells() {
    let l = small_lattice();
    assert_eq!(l.num_edges(), 64);
    assert_eq!(l.num_faces(), 96);
    assert_eq!(l.num_cubes(), 64);
    assert!(l.edges.iter().all(|e| e.phase == 0));
    assert!(l.faces.iter().all(|f| f.holonomy == 0 && f.dirac_string == 0));
    assert!(l.cubes.iter().all(|c| c.charge == 0));
}

#[test]
fn periodic_cells_layout() {
    let (n_edges, face_edges, cube_faces) = periodic_cells([2, 2, 2, 2]);
    assert_eq!(n_edges, 64);
    assert_eq!(face_edges.len(), 96);
    assert_eq!(cube_faces.len(), 64);
    assert_eq!(face_edges[0], [0, 4, 24, 16]);
    assert_eq!(face_edges[5], [5, 1, 29, 21]);
    assert_eq!(cube_faces[0], [56, 48, 16, 20, 2, 0]);
    assert_eq!(cube_faces[17], [73, 65, 33, 37, 0, 1]);
}

#[test]
fn periodic_cells_wrap_around_on_a_larger_shape() {
    let (n_edges, face_edges, cube_faces) = periodic_cells([3, 1, 1, 2]);
    assert_eq!(n_edges, 24);
    assert_eq!(face_edges.len(), 36);
    assert_eq!(cube_faces.len(), 24);
    // Face (0, 3) at site x0 = 2, x3 = 1 (number 5): its neighbours wrap.
    assert_eq!(face_edges[2 * 6 + 5], [5, 4, 18 + 1, 18 + 5]);
}

#[test]
fn edge_update_recomputes_faces_and_cubes() {
    let mut l = small_lattice();
    let old0 = EdgeField::<4, 3>::update(0, &mut l, EdgeField { phase: 1 });
    assert_eq!(old0.phase, 0);
    let old16 = EdgeField::<4, 3>::update(16, &mut l, EdgeField { phase: 2 });
    assert_eq!(old16.phase, 0);

    let holonomies: Vec<(usize, usize)> = l
        .faces
        .iter()
        .enumerate()
        .filter(|(_, f)| f.holonomy != 0)
        .map(|(i, f)| (i, f.holonomy))
        .collect();
    assert_eq!(
        holonomies,
        vec![(0, 2), (4, 2), (8, 2), (16, 1), (18, 2), (32, 1), (33, 2), (48, 2), (50, 1), (64, 2), (65, 1)]
    );
    let strings: Vec<(usize, isize)> = l
        .faces
        .iter()
        .enumerate()
        .filter(|(_, f)| f.dirac_string != 0)
        .map(|(i, f)| (i, f.dirac_string))
        .collect();
    assert_eq!(strings, vec![(0, 1)]);
    let charges: Vec<(usize, isize)> = l
        .cubes
        .iter()
        .enumerate()
        .filter(|(_, c)| c.charge != 0)
        .map(|(i, c)| (i, c.charge))
        .collect();
    assert_eq!(charges, vec![(0, -1), (2, 1), (16, -1), (17, 1)]);
    assert_eq!(calculate_dirac_string(0, &l), 1);
    assert_eq!(calculate_dirac_string(1, &l), 0);
}

#[test]
fn edge_update_undone_restores_lattice() {
    let mut l = small_lattice();
    EdgeField::<4, 3>::update(5, &mut l, EdgeField { phase: 2 });
    EdgeField::<4, 3>::update(21, &mut l, EdgeField { phase: 1 });
    let edges_before = l.edges.clone();
    let faces_before = l.faces.clone();
    let cubes_before = l.cubes.clone();
    let previous = EdgeField::<4, 3>::update(37, &mut l, EdgeField { phase: 2 });
    assert_ne!(l.faces, faces_before);
    EdgeField::<4, 3>::update(37, &mut l, previous);
    assert_eq!(l.edges, edges_before);
    assert_eq!(l.faces, faces_before);
    assert_eq!(l.cubes, cubes_before);
}

#[test]
fn rebuild_single_cells() {
    let mut l = small_lattice();
    l.edges[0] = EdgeField { phase: 2 };
    PlaquetteField::<4, 3>::rebuild(0, &mut l);
    assert_eq!(l.faces[0].holonomy, 2);
    assert_eq!(l.faces[0].dirac_string, 0);
    l.edges[16] = EdgeField { phase: 1 };
    PlaquetteField::<4, 3>::rebuild(0, &mut l);
    // winding -1 - 0 + 0 - 1 = -2: a Dirac string of -1.
    assert_eq!(l.faces[0].holonomy, 1);
    assert_eq!(l.faces[0].dirac_string, -1);
    MonopoleField::<4, 3>::rebuild(0, &mut l);
    assert_eq!(l.cubes[0].charge, 1);
}

#[test]
fn lattice_from_cells_rejects_bad_tables() {
    let ok = ZNLattice::<4, 3>::from_cells(4, vec![[0, 1, 2, 3]], vec![[0, 0, 0, 0, 0, 0]]);
    let g = ok.unwrap();
    assert_eq!(g.edge_faces[2], vec![0]);
    assert_eq!(g.edge_cubes[3], vec![0]);
    assert!(ZNLattice::<4, 3>::from_cells(3, vec![[0, 1, 2, 3]], vec![]).is_none());
    assert!(ZNLattice::<4, 3>::from_cells(4, vec![[0, 1, 2, 3]], vec![[0, 0, 0, 0, 0, 1]]).is_none());
    assert!(ZNLattice::<4, 0>::from_cells(4, vec![[0, 1, 2, 3]], vec![]).is_none());
}

#[test]
fn lattice_new_checks_incidences() {
    let good = ZNLattice::<4, 3>::new(
        vec![[0, 1, 2, 3]],
        vec![],
        vec![vec![0], vec![0], vec![0], vec![0]],
        vec![vec![], vec![], vec![], vec![]],
    );
    assert!(good.is_some());
    let missing_face = ZNLattice::<4, 3>::new(
        vec![[0, 1, 2, 3]],
        vec![],
        vec![vec![0], vec![], vec![0], vec![0]],
        vec![vec![], vec![], vec![], vec![]],
    );
    assert!(missing_face.is_none());
}

#[test]
fn edge_init_is_at_rest() {
    assert_eq!(EdgeField::<4, 3>::init().phase, 0);
    assert!(vec_contains(&vec![3, 5, 8], 5));
    assert!(!vec_contains(&vec![3, 5, 8], 4));
}

#[test]
fn experiment_starts_at_rest() {
    let e = Experiment::<3>::new([2, 2, 2, 2], 7, 9, 42);
    assert_eq!(e.sim.num_edges(), 64);
    assert_eq!(e.shape, [2, 2, 2, 2]);
    assert_eq!(e.performed_updates, 0);
    assert_eq!(e.accepted_updates, 0);
    assert_eq!(e.rng_seed, 42);
    assert_eq!(e.rng_gen.rng_gen.len(), 16);
    let f = Experiment::<3>::new([2, 2, 2, 2], 7, 9, 42);
    assert!(e == f);
    let g = Experiment::<3>::new([2, 2, 2, 2], 7, 9, 43);
    assert!(e != g);
}

#[test]
fn experiment_reboots_from_its_seed() {
    let mut e = Experiment::<3>::new([2, 2, 2, 2], 11, 13, 5);
    for _ in 0..200 {
        let edge = e.rng_gen.gen_range(64) as usize;
        let proposal = e.propose_update();
        EdgeField::<4, 3>::update(edge, &mut e.sim, proposal);
        e.count_update(proposal.phase % 2 == 0);
    }
    assert_eq!(e.performed_updates, 200);
    let seed = e.to_seed();
    assert_eq!(seed.last_state.edges.len(), 64);
    assert_eq!(seed.experiment_parameters.shape, [2, 2, 2, 2]);
    assert_eq!(seed.experiment_parameters.z_order, 3);
    assert_eq!(seed.experiment_parameters.beta_bits, 11);
    let r = Experiment::<3>::reboot_experiment(seed);
    assert!(r == e);
    assert_eq!(r.sim.edges, e.sim.edges);
    assert_eq!(r.sim.faces, e.sim.faces);
    assert_eq!(r.sim.cubes, e.sim.cubes);
    assert_eq!(r.shape, e.shape);
    assert_eq!(r.rng_seed, 5);
    assert_eq!(r.accepted_updates, e.accepted_updates);
}

#[test]
fn experiment_count_update_counts() {
    let mut e = Experiment::<3>::new([1, 1, 1, 1], 0, 0, 0);
    e.count_update(true);
    e.count_update(false);
    assert_eq!(e.performed_updates, 2);
    assert_eq!(e.accepted_updates, 1);
}

#[test]
fn proposals_are_in_range_and_reproducible() {
    let mut a = Experiment::<3>::new([1, 1, 1, 1], 0, 0, 99);
    let mut b = Experiment::<3>::new([1, 1, 1, 1], 0, 0, 99);
    for _ in 0..50 {
        let pa = a.propose_update();
        let pb = b.propose_update();
        assert!(pa.phase < 3);
        assert_eq!(pa, pb);
    }
    assert!(bytes_equal(&a.rng_gen.rng_gen, &b.rng_gen.rng_gen));
}

#[test]
fn bytes_equal_compares_contents() {
    assert!(bytes_equal(&vec![1, 2, 3], &vec![1, 2, 3]));
    assert!(!bytes_equal(&vec![1, 2, 3], &vec![1, 2, 4]));
    assert!(!bytes_equal(&vec![1, 2], &vec![1, 2, 3]));
}

#[test]
fn plaquette_text() {
    let f = PlaquetteField::<4, 3> { holonomy: 2, dirac_string: -1 };
    assert_eq!(f.to_text(), "PlaquetteField: 2");
}

#[test]
fn periodic_lattice_inverse_tables() {
    let l = small_lattice();
    assert_eq!(l.edge_faces[0], vec![0, 4, 16, 18, 32, 33]);
    assert_eq!(l.edge_cubes[0], vec![0, 2, 4, 6, 16, 17, 20, 21, 32, 33, 34, 35]);
    for e in 0..64 {
        assert_eq!(l.edge_faces[e].len(), 6);
        assert!(l.edge_faces[e].windows(2).all(|w| w[0] < w[1]));
    }
}

#[test]
fn plaquette_difference_counts() {
    let mut e = Experiment::<3>::new([2, 2, 2, 2], 0, 0, 1);
    assert_eq!(holonomy_difference_counts(&e, 1), [64, 0, 0]);
    // Faces 0 and 4 of the (0, 1) plane get holonomy 2.
    EdgeField::<4, 3>::update(0, &mut e.sim, EdgeField { phase: 1 });
    EdgeField::<4, 3>::update(16, &mut e.sim, EdgeField { phase: 2 });
    let c0 = holonomy_difference_counts(&e, 0);
    assert_eq!(c0, [64, 0, 0]);
    let c1 = holonomy_difference_counts(&e, 1);
    assert_eq!(c1.iter().sum::<u64>(), 64);
    assert_eq!(c1, [48, 8, 8]);
}

#[test]
fn couplings_compare_as_floats() {
    let a = Experiment::<3>::new([1, 1, 1, 1], 0.5f32.to_bits(), 0.0f32.to_bits(), 3);
    let b = Experiment::<3>::new([1, 1, 1, 1], 0.5f32.to_bits(), (-0.0f32).to_bits(), 3);
    assert!(a == b);
    let nan = Experiment::<3>::new([1, 1, 1, 1], f32::NAN.to_bits(), 0, 3);
    let nan2 = Experiment::<3>::new([1, 1, 1, 1], f32::NAN.to_bits(), 0, 3);
    assert!(nan != nan2);
    assert!(f32_bits_equal(1.5f32.to_bits(), 1.5f32.to_bits()));
    assert!(!f32_bits_equal(1.5f32.to_bits(), 2.5f32.to_bits()));
    assert!(f32_bits_equal(0.0f32.to_bits(), (-0.0f32).to_bits()));
    assert!(!f32_bits_equal(f32::NAN.to_bits(), f32::NAN.to_bits()));
}

#[test]
fn charge_of_large_dirac_strings() {
    let mut l = small_lattice();
    // cube 0 has faces [56, 48, 16, 20, 2, 0]
    l.faces[56].dirac_string = 7;
    l.faces[48].dirac_string = -3;
    l.faces[0].dirac_string = 5;
    MonopoleField::<4, 3>::rebuild(0, &mut l);
    assert_eq!(l.cubes[0].charge, 7 + 3 - 5);
}

#[test]
fn edge_update_changes_only_its_cells() {
    let mut l = small_lattice();
    EdgeField::<4, 3>::update(40, &mut l, EdgeField { phase: 1 });
    let before = (l.faces.clone(), l.cubes.clone());
    EdgeField::<4, 3>::update(3, &mut l, EdgeField { phase: 2 });
    for f in 0..96 {
        if !l.face_edges[f].contains(&3) {
            assert_eq!(l.faces[f], before.0[f]);
        }
    }
    for c in 0..64 {
        if !l.cube_faces[c].iter().any(|&f| l.face_edges[f].contains(&3)) {
            assert_eq!(l.cubes[c], before.1[c]);
        }
    }
}
