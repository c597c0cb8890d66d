use z_n_gauge::file_names::{
    backup_file_name, backup_id_of_file_name, find_char, find_pair, lattice_size_of_file_name,
    parse_underscore_fields, parse_unsigned_range,
};
use z_n_gauge::measurements::settings::{
    append_decimal, batch_file_content, phase_diagram_batch_file_content, ClusterQueue,
    ClusterSettings, ClusterTime, DurationWrapper, HaltingCondition, LatticeShapes,
};
use z_n_gauge::measurements::sheduler::{
    experiments_to_reboot, max_backup_id, needs_relaunch, recordings_goal, relaunch_parameters,
    split_into_maximal_sublists, sweep_runs,
};
use z_n_gauge::measurements::zipper::{min_backup_count, truncation_lengths, usize_vec_equal};
use z_n_gauge::sheduler::executor::{ExecutorParameters, RecordingSchedule};

fn cluster() -> ClusterSettings {
    ClusterSettings {
        cluster_time: ClusterTime { days: 1, hours: 2, minutes: 30, seconds: 0 },
        ram: 16,
        temporary_storage: 100,
        email: "someone@example.org".to_string(),
        queue: ClusterQueue::Shared,
    }
}

#[test]
fn split_deals_larger_chunks_first() {
    let chunks = split_into_maximal_sublists((1..=10).collect::<Vec<u32>>(), 3);
    assert_eq!(chunks, vec![vec![1, 2, 3, 4], vec![5, 6, 7], vec![8, 9, 10]]);
    let chunks = split_into_maximal_sublists(vec!['a', 'b'], 4);
    assert_eq!(chunks, vec![vec!['a'], vec!['b'], vec![], vec![]]);
    let chunks = split_into_maximal_sublists(Vec::<u8>::new(), 2);
    assert_eq!(chunks, vec![Vec::<u8>::new(), Vec::new()]);
}

#[test]
fn split_sizes_differ_by_at_most_one() {
    for len in 0..30usize {
        for n in 1..7usize {
            let chunks = split_into_maximal_sublists((0..len).collect::<Vec<usize>>(), n);
            let sizes: Vec<usize> = chunks.iter().map(|c| c.len()).collect();
            assert_eq!(sizes.iter().sum::<usize>(), len);
            assert!(sizes.windows(2).all(|w| w[0] >= w[1] && w[0] - w[1] <= 1));
            let flat: Vec<usize> = chunks.into_iter().flatten().collect();
            assert_eq!(flat, (0..len).collect::<Vec<usize>>());
        }
    }
}

#[test]
fn relaunch_picks_unfinished_runs() {
    let runs = vec![
        ("run_a".to_string(), vec![1, 3, 2]),
        ("run_b".to_string(), vec![1, 2, 3, 4, 5]),
        ("run_c".to_string(), vec![]),
    ];
    let goal = HaltingCondition::Recordings(20);
    let picked = experiments_to_reboot(&runs, &goal, 4);
    assert_eq!(picked, vec![("run_a".to_string(), 3), ("run_c".to_string(), 0)]);
    assert_eq!(max_backup_id(&vec![4, 9, 2]), 9);
    assert_eq!(max_backup_id(&vec![]), 0);
    assert_eq!(recordings_goal(&goal), 20);
    assert!(needs_relaunch(4, 4, 17));
    assert!(!needs_relaunch(5, 4, 20));
}

#[test]
fn relaunch_parameters_continue_the_run() {
    let p = relaunch_parameters("sweep/run_a".to_string(), 3, 20, 10, 4, 7);
    assert_eq!(p.halting_condition, HaltingCondition::Recordings(8));
    assert_eq!(p.recording_skip, 10);
    assert_eq!(p.recordings_until_backup, 4);
    assert_eq!(p.run_id, 7);
    assert_eq!(p.parent_path, "sweep/run_a");
    assert_eq!(p.backup_number, 4);
}

#[test]
fn schedule_batches_cover_the_run() {
    let exec_par = ExecutorParameters {
        halting_condition: HaltingCondition::Recordings(10),
        recording_skip: 1,
        recordings_until_backup: 4,
        run_id: 0,
        parent_path: String::new(),
        backup_number: 1,
    };
    let mut schedule = RecordingSchedule::new(&exec_par, 1);
    let mut batches = Vec::new();
    let mut numbers = Vec::new();
    while schedule.has_recordings_left() {
        let b = schedule.next_batch();
        batches.push(b);
        numbers.push(schedule.backup_number);
        schedule.finish_batch(b);
    }
    assert_eq!(batches, vec![4, 4, 2]);
    assert_eq!(numbers, vec![1, 2, 3]);
    assert_eq!(schedule.recordings_counter, 10);
}

#[test]
fn schedule_for_a_time_limit() {
    let exec_par = ExecutorParameters {
        halting_condition: HaltingCondition::Time(DurationWrapper(3600)),
        recording_skip: 1,
        recordings_until_backup: 100,
        run_id: 0,
        parent_path: String::new(),
        backup_number: 1,
    };
    let schedule = RecordingSchedule::new(&exec_par, 5);
    assert_eq!(schedule.max_recordings, 1 << 31);
    assert_eq!(schedule.next_batch(), 100);
    assert_eq!(schedule.backup_number, 5);
}

#[test]
fn lattice_shapes_expand() {
    assert_eq!(LatticeShapes::Single([1, 2, 3, 4]).to_shapes(), vec![[1, 2, 3, 4]]);
    assert_eq!(
        LatticeShapes::Custom(vec![[2, 2, 2, 2], [4, 4, 4, 8]]).to_shapes(),
        vec![[2, 2, 2, 2], [4, 4, 4, 8]]
    );
    assert_eq!(LatticeShapes::Sweep(3..5).to_shapes(), vec![[3, 3, 3, 3], [4, 4, 4, 4]]);
    assert_eq!(LatticeShapes::Sweep(5..3).to_shapes(), Vec::<[usize; 4]>::new());
    assert_eq!(
        LatticeShapes::Evens([2, 6]).to_shapes(),
        vec![[2, 2, 2, 2], [4, 4, 4, 4], [6, 6, 6, 6]]
    );
    assert_eq!(LatticeShapes::Evens([8, 4]).to_shapes(), Vec::<[usize; 4]>::new());
}

#[test]
fn cluster_queue_names() {
    assert_eq!(ClusterQueue::default(), ClusterQueue::Shared);
    assert_eq!(ClusterQueue::Test.partition(), "test");
    assert_eq!(ClusterQueue::Shared.partition(), "shared");
}

#[test]
fn decimal_text() {
    let mut s = String::from("n=");
    append_decimal(&mut s, 0);
    append_decimal(&mut s, 1234567890);
    assert_eq!(s, "n=01234567890");
    let mut t = String::new();
    append_decimal(&mut t, u64::MAX);
    assert_eq!(t, u64::MAX.to_string());
}

#[test]
fn sweep_batch_file() {
    let content = batch_file_content(8, &cluster(), "configs/sweep.json");
    let expected = "#!/bin/bash\n\n# Request resources:\n#SBATCH -c 8\n#SBATCH --time=1-2:30:0\n\
#SBATCH --mem=16G\n#SBATCH --gres=tmp:100G\n#SBATCH --mail-user=someone@example.org\n\
#SBATCH --mail-type=ALL\n#SBATCH -p shared\n\n\n#Commands to be run:\n\
cargo run --manifest-path z_n_gauge/Cargo.toml --release --example run_sweep configs/sweep.json";
    assert_eq!(content, expected);
}

#[test]
fn phase_diagram_batch_file() {
    let mut c = cluster();
    c.queue = ClusterQueue::Test;
    let content = phase_diagram_batch_file_content(2, &c, "target/release/sweep", "pd.json");
    let expected = "#!/bin/bash\n\n# Request resources:\n#SBATCH -c 2\n#SBATCH --time=1-2:30:0\n\
#SBATCH --mem=16G\n#SBATCH --tmp=100G\n#SBATCH --mail-user=someone@example.org\n\
#SBATCH --mail-type=ALL\n#SBATCH -p test\n\n\n#Commands to be run:\n\
./target/release/sweep pd.json";
    assert_eq!(content, expected);
}

#[test]
fn backup_file_numbers() {
    assert_eq!(backup_id_of_file_name("12.npy"), Some(12));
    assert_eq!(backup_id_of_file_name("7"), Some(7));
    assert_eq!(backup_id_of_file_name("4294967295.npy"), Some(u32::MAX));
    assert_eq!(backup_id_of_file_name("4294967296.npy"), None);
    assert_eq!(backup_id_of_file_name("+3.npy"), Some(3));
    assert_eq!(backup_id_of_file_name("x1.npy"), None);
    assert_eq!(backup_id_of_file_name(".npy"), None);
}

#[test]
fn lattice_size_from_run_name() {
    assert_eq!(lattice_size_of_file_name("3-L_8_8_8_4-b_0p50-l_1p00"), Some(vec![8, 8, 8, 4]));
    assert_eq!(lattice_size_of_file_name("L_2_3-x"), Some(vec![2, 3]));
    assert_eq!(lattice_size_of_file_name("L_2_3"), None);
    assert_eq!(lattice_size_of_file_name("no size-here"), None);
    assert_eq!(lattice_size_of_file_name("L_2__3-"), None);
}

#[test]
fn text_search_helpers() {
    assert_eq!(find_char("a.b.c", '.', 0, 5), Some(1));
    assert_eq!(find_char("a.b.c", '.', 2, 5), Some(3));
    assert_eq!(find_char("a.b.c", '.', 4, 5), None);
    assert_eq!(find_pair("xL_yL_", 'L', '_'), Some(1));
    assert_eq!(find_pair("LxL", 'L', '_'), None);
    assert_eq!(parse_unsigned_range("ab123cd", 2, 5, 1000), Some(123));
    assert_eq!(parse_unsigned_range("ab123cd", 2, 5, 100), None);
    assert_eq!(parse_unsigned_range("ab123cd", 2, 2, 100), None);
    assert_eq!(parse_underscore_fields("x4_5_6y", 1, 6), Some(vec![4, 5, 6]));
    assert_eq!(parse_underscore_fields("x4_5_y", 1, 5), None);
}

#[test]
fn archive_truncation() {
    let sizes = vec![vec![4, 4, 4, 4], vec![8, 8, 8, 8], vec![4, 4, 4, 4], vec![8, 8, 8, 8]];
    let counts = vec![5, 7, 3, 9];
    assert_eq!(truncation_lengths(&sizes, &counts), vec![3, 7, 3, 7]);
    assert_eq!(min_backup_count(&vec![6, 2, 9]), 2);
    assert!(usize_vec_equal(&vec![1, 2], &vec![1, 2]));
    assert!(!usize_vec_equal(&vec![1, 2], &vec![1]));
}

#[test]
fn halting_condition_text() {
    assert_eq!(HaltingCondition::Recordings(250).to_text(), "Recordings: 250");
    assert_eq!(HaltingCondition::Time(DurationWrapper(3600)).to_text(), "Time: PT3600S");
    assert_eq!(HaltingCondition::Time(DurationWrapper(0)).to_text(), "Time: P0D");
    assert_eq!(HaltingCondition::Time(DurationWrapper(-90)).to_text(), "Time: -PT90S");
}

#[test]
fn backup_file_names_read_back() {
    assert_eq!(backup_file_name(12), "12.npy");
    assert_eq!(backup_file_name(0), "0.npy");
    for n in [0u32, 1, 9, 10, 4096, u32::MAX] {
        assert_eq!(backup_id_of_file_name(&backup_file_name(n)), Some(n));
    }
}

#[test]
fn sweep_runs_enumerate_every_point() {
    let shapes = vec![[2usize, 2, 2, 2], [3, 3, 3, 3]];
    let betas = vec![1u32, 2];
    let lambdas = vec![7u32, 8, 9];
    let runs = sweep_runs(&shapes, &betas, &lambdas, 2);
    assert_eq!(runs.len(), 24);
    for (k, run) in runs.iter().enumerate() {
        assert_eq!(run.run_id as usize, k + 1);
    }
    assert_eq!((runs[0].shape, runs[0].beta_bits, runs[0].lambda_bits), ([2, 2, 2, 2], 1, 7));
    assert_eq!((runs[1].shape, runs[1].beta_bits, runs[1].lambda_bits), ([2, 2, 2, 2], 1, 7));
    assert_eq!((runs[2].shape, runs[2].beta_bits, runs[2].lambda_bits), ([2, 2, 2, 2], 1, 8));
    assert_eq!((runs[6].shape, runs[6].beta_bits, runs[6].lambda_bits), ([2, 2, 2, 2], 2, 7));
    assert_eq!((runs[23].shape, runs[23].beta_bits, runs[23].lambda_bits), ([3, 3, 3, 3], 2, 9));
    assert!(sweep_runs(&shapes, &betas, &vec![], 2).is_empty());
    assert!(sweep_runs(&shapes, &betas, &lambdas, 0).is_empty());
}
