use z_n_gauge::arrays::{shape_to_length, DynArray};
use z_n_gauge::byte_order::{read_le, write_le};
use z_n_gauge::experiment::backup::backup::{BackUp, BackupData};
use z_n_gauge::experiment::backup::backup_experiment;
use z_n_gauge::experiment::backup::deserializer::{
    copy_range, BackupDataReader, BackupReader, RebootSeedReader,
};
use z_n_gauge::experiment::backup::serializer::{write_bytes, BackupWriter, RebootSeedWriter};
use z_n_gauge::experiment::experiment::{copy_bytes, Experiment};
use z_n_gauge::gauge_fields::edges::EdgeField;
use z_n_gauge::measurements::backup::backup_fragments::{
    merge_run_infos, read_experiment_parameters, read_run_info, write_experiment_parameters,
    write_run_info, ExperimentParameters, LastState, RebootSeed, RunInfo,
    EXPERIMENT_PARAMETERS_BYTES, RUN_INFO_BYTES,
};
use z_n_gauge::measurements::measurement_types::save_edges::{record_edges, SaveEdges};
use z_n_gauge::measurements::rng_gen_wrapper::{
    RngGenWrapper, RngGenWrapperReader, RngGenWrapperWriter,
};

fn sample_seed() -> RebootSeed {
    RebootSeed {
        last_state: LastState {
            edges: vec![0, 1, 2, 1, 0],
            rng_gen: RngGenWrapper { rng_gen: (100u8..116).collect() },
            performed_updates: 0x0102_0304_0506_0708,
            accepted_updates: 7,
        },
        experiment_parameters: ExperimentParameters {
            shape: [1, 2, 3, 4],
            z_order: 3,
            beta_bits: 0x3f00_0000,
            lambda_bits: 0x3f80_0000,
            rng_seed: 42,
        },
    }
}

fn sample_run_info(recordings: u32, backup_number: u32) -> RunInfo {
    RunInfo {
        recordings,
        recording_skip: 10,
        recordings_until_backup: 4,
        backup_number,
        recording_time: -5,
        run_id: 9,
    }
}

#[test]
fn little_endian_write_and_read() {
    let mut out = vec![0xaa];
    write_le(&mut out, 0x0102_0304, 4);
    assert_eq!(out, vec![0xaa, 4, 3, 2, 1]);
    write_le(&mut out, 0x1ff, 1);
    assert_eq!(out, vec![0xaa, 4, 3, 2, 1, 0xff]);
    assert_eq!(read_le(&out, 1, 4), 0x0102_0304);
    assert_eq!(read_le(&out, 0, 2), 0x04aa);
    assert_eq!(read_le(&out, 3, 0), 0);
}

#[test]
fn experiment_parameters_record_roundtrip() {
    let p = sample_seed().experiment_parameters;
    let mut out = vec![9, 9];
    write_experiment_parameters(&mut out, &p);
    assert_eq!(out.len(), 2 + EXPERIMENT_PARAMETERS_BYTES);
    assert_eq!(&out[2..6], &[1, 0, 0, 0]);
    assert_eq!(&out[30..38], &[42, 0, 0, 0, 0, 0, 0, 0]);
    assert_eq!(read_experiment_parameters(&out, 2), p);
}

#[test]
fn run_info_record_roundtrip() {
    let r = sample_run_info(3, 2);
    let mut out = Vec::new();
    write_run_info(&mut out, &r);
    assert_eq!(out.len(), RUN_INFO_BYTES);
    assert_eq!(&out[16..24], &[0xfb, 0xff, 0xff, 0xff, 0xff, 0xff, 0xff, 0xff]);
    assert_eq!(read_run_info(&out, 0), r);
}

#[test]
fn reboot_seed_record_roundtrip() {
    let seed = sample_seed();
    let mut out = Vec::new();
    RebootSeedWriter {}.write_one(&mut out, &seed);
    assert_eq!(out.len(), 5 + 16 + 16 + EXPERIMENT_PARAMETERS_BYTES);
    assert_eq!(&out[0..5], &[0, 1, 2, 1, 0]);
    assert_eq!(out[5], 100);
    assert_eq!(&out[21..29], &[8, 7, 6, 5, 4, 3, 2, 1]);
    let reader = RebootSeedReader { edges_len: 5, rng_len: 16 };
    assert_eq!(reader.read_one(&out), seed);
}

#[test]
fn backup_record_roundtrip() {
    let backup = BackUp {
        reboot_seed: sample_seed(),
        backup_data: BackupData {
            recorded_data: DynArray { shape: vec![2, 3], data: vec![1, 2, 3, 4, 5, 6] },
        },
        run_info: sample_run_info(2, 5),
    };
    let mut out = Vec::new();
    BackupWriter {}.write_one(&mut out, &backup);
    assert_eq!(out.len(), 73 + 6 + RUN_INFO_BYTES);
    let reader = BackupReader { edges_len: 5, rng_len: 16, data_shape: vec![2, 3] };
    assert_eq!(reader.read_one(&out), backup);
    let data_reader = BackupDataReader { shape: vec![3, 2] };
    let data = data_reader.read_one(&[7, 8, 9, 10, 11, 12, 13]);
    assert_eq!(data.recorded_data.shape, vec![3, 2]);
    assert_eq!(data.recorded_data.data, vec![7, 8, 9, 10, 11, 12]);
}

#[test]
fn rng_state_bytes_roundtrip() {
    let g = RngGenWrapper::seed_from_u64(3);
    assert_eq!(g.rng_gen.len(), 16);
    let mut out = vec![1];
    RngGenWrapperWriter {}.write_one(&mut out, &g);
    assert_eq!(out.len(), 17);
    let back = RngGenWrapperReader {}.read_one(&out[1..]);
    assert_eq!(back, g);
    assert!(RngGenWrapper::from_bytes(&out[..15]).is_none());
    let long: Vec<u8> = (0u8..20).collect();
    let g2 = RngGenWrapper::from_bytes(&long).unwrap();
    assert_eq!(g2.rng_gen, (0u8..16).collect::<Vec<u8>>());
}

#[test]
fn rng_draws_depend_on_state_only() {
    let mut a = RngGenWrapper::seed_from_u64(17);
    let mut b = RngGenWrapper::seed_from_u64(17);
    let c = RngGenWrapper::seed_from_u64(18);
    assert_ne!(a.rng_gen, c.rng_gen);
    let start = a.rng_gen.clone();
    let mut draws = Vec::new();
    for _ in 0..20 {
        let x = a.gen_range(10);
        assert!(x < 10);
        assert_eq!(x, b.gen_range(10));
        draws.push(x);
    }
    assert_ne!(a.rng_gen, start);
    assert!(draws.iter().any(|&x| x != draws[0]));
    let mut again = RngGenWrapper::from_bytes(&start).unwrap();
    assert_eq!(again.gen_range(10), draws[0]);
}

#[test]
fn merge_run_infos_sums_recordings() {
    let infos = vec![sample_run_info(4, 1), sample_run_info(4, 2), sample_run_info(1, 3)];
    let merged = merge_run_infos(&infos);
    assert_eq!(merged.recordings, 9);
    assert_eq!(merged.backup_number, 1);
    assert_eq!(merged.run_id, 9);
    assert_eq!(merged.recording_time, -5);
}

#[test]
fn merge_backups_stacks_recordings() {
    let first = BackUp {
        reboot_seed: sample_seed(),
        backup_data: BackupData { recorded_data: DynArray { shape: vec![2, 2], data: vec![1, 2, 3, 4] } },
        run_info: sample_run_info(2, 1),
    };
    let mut last_seed = sample_seed();
    last_seed.last_state.accepted_updates = 99;
    let second = BackUp {
        reboot_seed: last_seed.clone(),
        backup_data: BackupData { recorded_data: DynArray { shape: vec![1, 2], data: vec![5, 6] } },
        run_info: sample_run_info(1, 2),
    };
    let merged = BackUp::merge_backups(vec![first, second]);
    assert_eq!(merged.backup_data.recorded_data.shape, vec![3, 2]);
    assert_eq!(merged.backup_data.recorded_data.data, vec![1, 2, 3, 4, 5, 6]);
    assert_eq!(merged.run_info.recordings, 3);
    assert_eq!(merged.run_info.backup_number, 1);
    assert_eq!(merged.reboot_seed, last_seed);
}

#[test]
fn save_edges_records_and_merges() {
    let mut e = Experiment::<3>::new([1, 1, 1, 2], 1, 2, 3);
    EdgeField::<4, 3>::update(3, &mut e.sim, EdgeField { phase: 2 });
    let mut recordings = DynArray { shape: vec![2, 8], data: vec![9; 16] };
    record_edges(&e, &mut recordings, 1);
    assert_eq!(recordings.data, vec![9, 9, 9, 9, 9, 9, 9, 9, 0, 0, 0, 2, 0, 0, 0, 0]);
    record_edges(&e, &mut recordings, 0);
    let a = SaveEdges::new(&e, recordings, sample_run_info(2, 1));
    assert_eq!(a.reboot_seed.last_state.edges, vec![0, 0, 0, 2, 0, 0, 0, 0]);
    assert_eq!(a.reboot_seed.experiment_parameters.shape, [1, 1, 1, 2]);
    let b = SaveEdges::new(&e, DynArray { shape: vec![1, 8], data: vec![1; 8] }, sample_run_info(1, 2));
    let merged = SaveEdges::merge(vec![a, b]);
    assert_eq!(merged.edges.shape, vec![3, 8]);
    assert_eq!(merged.edges.data.len(), 24);
    assert_eq!(merged.edges.data[3], 2);
    assert_eq!(merged.edges.data[16], 1);
    assert_eq!(merged.run_info.recordings, 3);
    assert_eq!(merged.run_info.backup_number, 1);
}

#[test]
fn flat_backup_of_experiment() {
    let mut e = Experiment::<3>::new([1, 1, 1, 1], 1, 2, 3);
    EdgeField::<4, 3>::update(2, &mut e.sim, EdgeField { phase: 1 });
    let b = backup_experiment(&e, sample_run_info(0, 1), DynArray { shape: vec![0], data: vec![] });
    assert_eq!(b.edges_flat_data, vec![0, 0, 1, 0]);
    assert_eq!(b.rng_gen, e.rng_gen);
    assert_eq!(b.run_info, sample_run_info(0, 1));
}

#[test]
fn flat_backup_reboots_the_experiment() {
    let mut e = Experiment::<3>::new([2, 2, 2, 2], 11, 13, 5);
    for k in 0..100usize {
        let proposal = e.propose_update();
        EdgeField::<4, 3>::update((k * 7) % 64, &mut e.sim, proposal);
        e.count_update(proposal.phase != 0);
    }
    let b = backup_experiment(&e, sample_run_info(0, 1), DynArray { shape: vec![0], data: vec![] });
    let parameters = e.to_seed().experiment_parameters;
    let r = b.reboot_experiment::<3>(parameters);
    assert!(r == e);
    assert_eq!(r.sim.edges, e.sim.edges);
    assert_eq!(r.sim.faces, e.sim.faces);
    assert_eq!(r.sim.cubes, e.sim.cubes);
    assert_eq!(r.performed_updates, 100);
    assert_eq!(r.accepted_updates, e.accepted_updates);
    assert_eq!(r.rng_seed, 5);
}

#[test]
fn byte_copies() {
    let v = vec![5u8, 6, 7, 8];
    assert_eq!(copy_bytes(&v), v);
    assert_eq!(copy_range(&v, 1, 2), vec![6, 7]);
    let mut w = vec![1u8];
    write_bytes(&mut w, &v);
    assert_eq!(w, vec![1, 5, 6, 7, 8]);
}

#[test]
fn shape_lengths() {
    assert_eq!(shape_to_length(&[2, 3, 4]), 24);
    assert_eq!(shape_to_length(&[]), 1);
    assert_eq!(shape_to_length(&[5, 0, 7]), 0);
}

#[test]
fn duplicate_copies_an_array() {
    let a = DynArray { shape: vec![2], data: vec![3u8, 4] };
    assert_eq!(a.duplicate(), a);
}

use z_n_gauge::experiment::backup::layout::{
    array_dtype, backup_dtype, backup_lengths_of, experiment_parameters_dtype, products_fit,
    reboot_seed_dtype, reboot_seed_lengths_of, run_info_dtype, shape_recursion, LayoutField,
    PlainType, RecordLayout,
};

fn u1() -> RecordLayout {
    RecordLayout::Plain(PlainType { descr: "<u1".to_string(), size: Some(1) })
}

#[test]
fn layouts_have_record_sizes() {
    assert_eq!(experiment_parameters_dtype().num_bytes(), Some(EXPERIMENT_PARAMETERS_BYTES));
    assert_eq!(run_info_dtype().num_bytes(), Some(RUN_INFO_BYTES));
    assert_eq!(array_dtype(&[2, 3, 4]).num_bytes(), Some(24));
    assert_eq!(array_dtype(&[]).num_bytes(), Some(1));
    assert_eq!(reboot_seed_dtype(&sample_seed()).num_bytes(), Some(73));
    let mut shape = vec![7];
    shape_recursion(&array_dtype(&[2, 3, 4]), &mut shape);
    assert_eq!(shape, vec![7, 2, 3, 4]);
    let huge = RecordLayout::Array(u64::MAX, Box::new(RecordLayout::Array(2, Box::new(u1()))));
    assert_eq!(huge.num_bytes(), None);
    let unsized_field = RecordLayout::Record(vec![LayoutField {
        name: "x".to_string(),
        layout: RecordLayout::Plain(PlainType { descr: "<U0".to_string(), size: None }),
    }]);
    assert_eq!(unsized_field.num_bytes(), None);
    assert!(products_fit(&vec![3, 4]));
    assert!(!products_fit(&vec![usize::MAX, 2]));
}

#[test]
fn backup_written_with_its_layout_reads_back() {
    let backup = BackUp {
        reboot_seed: sample_seed(),
        backup_data: BackupData {
            recorded_data: DynArray { shape: vec![2, 3], data: vec![1, 2, 3, 4, 5, 6] },
        },
        run_info: sample_run_info(2, 5),
    };
    let layout = backup_dtype(&backup);
    let mut out = Vec::new();
    BackupWriter {}.write_one(&mut out, &backup);
    assert_eq!(layout.num_bytes(), Some(out.len()));
    let (e, r, shape) = backup_lengths_of(&layout, "backup_data").unwrap();
    assert_eq!((e, r, shape.clone()), (5, 16, vec![2, 3]));
    let reader = BackupReader::reader(&layout).unwrap();
    assert_eq!(reader.read_one(&out), backup);
    let seed_reader = RebootSeedReader::reader(&reboot_seed_dtype(&backup.reboot_seed)).unwrap();
    assert_eq!(seed_reader.read_one(&out), backup.reboot_seed);
    let data_reader = BackupDataReader::reader(&array_dtype(&[3, 2])).unwrap();
    assert_eq!(data_reader.shape, vec![3, 2]);
}

#[test]
fn unreadable_layouts_are_refused() {
    assert!(reboot_seed_lengths_of(&u1()).is_none());
    assert!(backup_lengths_of(&run_info_dtype(), "backup_data").is_none());
    // A reboot seed whose generator holds fewer than 16 bytes.
    let mut seed = sample_seed();
    seed.last_state.rng_gen.rng_gen = vec![1, 2, 3];
    assert!(RebootSeedReader::reader(&reboot_seed_dtype(&seed)).is_none());
    // A record without its parameters.
    let only_state = RecordLayout::Record(vec![LayoutField { name: "last_state".to_string(), layout: u1() }]);
    assert!(reboot_seed_lengths_of(&only_state).is_none());
    assert!(BackupDataReader::reader(&RecordLayout::Array(u64::MAX, Box::new(RecordLayout::Array(3, Box::new(u1()))))).is_none());
}

use z_n_gauge::measurements::measurement_types::save_edges::SaveEdgesReader;

#[test]
fn save_edges_record_roundtrip() {
    let e = Experiment::<3>::new([1, 1, 1, 2], 4, 5, 6);
    let backup = SaveEdges::new(&e, DynArray { shape: vec![1, 4, 1, 1, 1, 2], data: vec![0, 1, 2, 0, 1, 2, 0, 1] }, sample_run_info(1, 3));
    let layout = backup.generate_dtype();
    let mut out = Vec::new();
    backup.write_record(&mut out);
    assert_eq!(layout.num_bytes(), Some(out.len()));
    assert!(BackupReader::reader(&layout).is_none());
    let reader = SaveEdgesReader::reader(&layout).unwrap();
    assert_eq!(reader.read_one(&out), backup);
}

#[test]
fn rng_state_layout() {
    let g = RngGenWrapper::seed_from_u64(1);
    let layout = g.generate_dtype();
    assert_eq!(layout.num_bytes(), Some(16));
    match layout {
        RecordLayout::Record(fields) => {
            assert_eq!(fields.len(), 1);
            assert_eq!(fields[0].name, "rng_gen_wrapper");
        }
        _ => panic!("a generator's layout is a record"),
    }
}

use z_n_gauge::arrays::{is_arrays_mergeable, nonzero_product_at_most, product_is};

#[test]
fn shape_product_checks() {
    assert!(product_is(&vec![2, 3, 4], 24));
    assert!(!product_is(&vec![2, 3, 4], 25));
    assert!(product_is(&vec![usize::MAX, 0, 7], 0));
    assert!(!product_is(&vec![usize::MAX, 3], 5));
    assert!(product_is(&vec![], 1));
    assert!(nonzero_product_at_most(&vec![2, 0, 3], 6));
    assert!(!nonzero_product_at_most(&vec![2, 0, 3], 5));
    assert!(!nonzero_product_at_most(&vec![], 0));
}

#[test]
fn mergeability_checks() {
    let a = DynArray { shape: vec![2, 2], data: vec![1u8, 2, 3, 4] };
    let b = DynArray { shape: vec![1, 2], data: vec![5u8, 6] };
    assert!(is_arrays_mergeable(&vec![a.clone(), b.clone()]));
    let c = DynArray { shape: vec![1, 3], data: vec![5u8, 6, 7] };
    assert!(!is_arrays_mergeable(&vec![a.clone(), c]));
    let scalar = DynArray { shape: vec![], data: vec![5u8] };
    assert!(!is_arrays_mergeable(&vec![DynArray { shape: vec![1], data: vec![1u8] }, scalar]));
    let short = DynArray { shape: vec![1, 2], data: vec![5u8] };
    assert!(!is_arrays_mergeable(&vec![a.clone(), short]));
    assert!(!is_arrays_mergeable::<u8>(&vec![]));
    let e = Experiment::<3>::new([1, 1, 1, 1], 1, 2, 3);
    let s1 = SaveEdges::new(&e, a, sample_run_info(2, 1));
    let s2 = SaveEdges::new(&e, b, sample_run_info(1, 2));
    assert!(SaveEdges::is_mergeable(&vec![s1.clone(), s2.clone()]));
    let mut big = s2.clone();
    big.run_info.recordings = u32::MAX;
    assert!(!SaveEdges::is_mergeable(&vec![s1, big]));
}

use z_n_gauge::measurements::measurement_types::ploop_ploopcorr_corr::{PloopCorrRecordings, SavePloopPloopCorrCorr};

fn ploop_recordings(rows: usize, start: u8) -> PloopCorrRecordings {
    let f = |x: f32| x.to_bits();
    PloopCorrRecordings {
        polyakov_loops: DynArray { shape: vec![rows, 1, 1, 1], data: (0..rows as u8).map(|i| start + i).collect() },
        polyakov_loop_correlators: DynArray { shape: vec![rows, 2, 2], data: vec![f(0.5); rows * 4] },
        pp_correlators: DynArray { shape: vec![rows, 2, 2], data: vec![f(start as f32); rows * 4] },
        average_plaquette: DynArray { shape: vec![rows, 2], data: vec![f(-1.0); rows * 2] },
        pp_correlators_differences: DynArray { shape: vec![rows, 2, 3], data: vec![start as u64; rows * 6] },
        average_plaquette_integer: DynArray { shape: vec![rows, 3], data: vec![1; rows * 3] },
        lateral_correlators: DynArray { shape: vec![rows, 2, 3], data: vec![2; rows * 6] },
        longitudinal_correlators: DynArray { shape: vec![rows, 2, 3], data: vec![3; rows * 6] },
    }
}

#[test]
fn ploop_backups_merge() {
    let e = Experiment::<3>::new([1, 1, 1, 1], 1, 2, 3);
    let a = SavePloopPloopCorrCorr::new(&e, ploop_recordings(2, 10), sample_run_info(2, 1));
    let b = SavePloopPloopCorrCorr::new(&e, ploop_recordings(1, 20), sample_run_info(1, 2));
    let merged = SavePloopPloopCorrCorr::merge(vec![a, b]);
    let r = &merged.ploop_corr_recordings;
    assert_eq!(r.polyakov_loops.shape, vec![3, 1, 1, 1]);
    assert_eq!(r.polyakov_loops.data, vec![10, 11, 20]);
    assert_eq!(r.pp_correlators.shape, vec![3, 2, 2]);
    assert_eq!(f32::from_bits(r.pp_correlators.data[11]), 20.0);
    assert_eq!(r.pp_correlators_differences.data.len(), 18);
    assert_eq!(merged.run_info.recordings, 3);
    assert_eq!(merged.run_info.backup_number, 1);
}

#[test]
fn ploop_merges_regroup() {
    let e = Experiment::<3>::new([1, 1, 1, 1], 1, 2, 3);
    let a = SavePloopPloopCorrCorr::new(&e, ploop_recordings(2, 10), sample_run_info(2, 1));
    let b = SavePloopPloopCorrCorr::new(&e, ploop_recordings(1, 20), sample_run_info(1, 2));
    let c = SavePloopPloopCorrCorr::new(&e, ploop_recordings(3, 30), sample_run_info(3, 3));
    let all = SavePloopPloopCorrCorr::merge(vec![a.clone(), b.clone(), c.clone()]);
    let left = SavePloopPloopCorrCorr::merge(vec![SavePloopPloopCorrCorr::merge(vec![a.clone(), b.clone()]), c.clone()]);
    let right = SavePloopPloopCorrCorr::merge(vec![a, SavePloopPloopCorrCorr::merge(vec![b, c])]);
    assert_eq!(left, all);
    assert_eq!(right, all);
    assert_eq!(all.ploop_corr_recordings.polyakov_loops.data, vec![10, 11, 20, 30, 31, 32]);
    assert_eq!(all.run_info.recordings, 6);
}

#[test]
fn edge_and_backup_merges_regroup() {
    let e = Experiment::<3>::new([1, 1, 1, 1], 1, 2, 3);
    let s1 = SaveEdges::new(&e, DynArray { shape: vec![2, 2], data: vec![1u8, 2, 3, 4] }, sample_run_info(2, 1));
    let s2 = SaveEdges::new(&e, DynArray { shape: vec![1, 2], data: vec![5u8, 6] }, sample_run_info(1, 2));
    let s3 = SaveEdges::new(&e, DynArray { shape: vec![1, 2], data: vec![7u8, 8] }, sample_run_info(1, 3));
    let all = SaveEdges::merge(vec![s1.clone(), s2.clone(), s3.clone()]);
    let left = SaveEdges::merge(vec![SaveEdges::merge(vec![s1.clone(), s2.clone()]), s3.clone()]);
    let right = SaveEdges::merge(vec![s1, SaveEdges::merge(vec![s2, s3])]);
    assert_eq!(left, all);
    assert_eq!(right, all);
    assert_eq!(all.edges.shape, vec![4, 2]);
    assert_eq!(all.edges.data, vec![1, 2, 3, 4, 5, 6, 7, 8]);
    assert_eq!(all.run_info.recordings, 4);

    let b = |data: Vec<u8>, n: u32| BackUp {
        reboot_seed: e.to_seed(),
        backup_data: BackupData { recorded_data: DynArray { shape: vec![data.len(), 1], data } },
        run_info: sample_run_info(n, n),
    };
    let all = BackUp::merge_backups(vec![b(vec![1], 1), b(vec![2, 3], 2), b(vec![4], 3)]);
    let left = BackUp::merge_backups(vec![BackUp::merge_backups(vec![b(vec![1], 1), b(vec![2, 3], 2)]), b(vec![4], 3)]);
    assert_eq!(left, all);
    assert_eq!(all.backup_data.recorded_data.data, vec![1, 2, 3, 4]);
    assert_eq!(all.run_info.recordings, 6);
}
