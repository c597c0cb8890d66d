//! Distributing runs over worker threads, and deciding which runs of a sweep
//! need a relaunch and how far they still have to go.
use vstd::prelude::*;

use crate::measurements::settings::HaltingCondition;
use crate::sheduler::executor::ExecutorParameters;

verus! {

/// Size of chunk `i` when `len` items are dealt into `n` chunks whose sizes
/// differ by at most one, the larger chunks first.
pub open spec fn chunk_size(len: int, n: int, i: int) -> int {
    len / n + (if i < len % n { 1int } else { 0int })
}

/// The items of the chunks, chunk after chunk.
pub open spec fn flatten<T>(chunks: Seq<Vec<T>>) -> Seq<T>
    decreases chunks.len(),
{
    if chunks.len() == 0 {
        Seq::empty()
    } else {
        flatten(chunks.drop_last()) + chunks.last()@
    }
}

proof fn lemma_chunks_taken(len: int, n: int, i: int)
    requires
        n > 0,
        len >= 0,
        0 <= i < n,
    ensures
        i * (len / n) + (if i < len % n { i } else { len % n }) + chunk_size(len, n, i) <= len,
        i * (len / n) + (if i < len % n { i } else { len % n }) + chunk_size(len, n, i) == (i + 1) * (len
            / n) + (if i + 1 < len % n { i + 1 } else { len % n }),
{
    let q = len / n;
    let r = len % n;
    assert(len == n * q + r && 0 <= r < n && q >= 0) by (nonlinear_arith)
        requires
            n > 0,
            len >= 0,
            q == len / n,
            r == len % n,
    ;
    assert((i + 1) * q <= n * q) by (nonlinear_arith)
        requires
            i + 1 <= n,
            q >= 0,
    ;
    assert((i + 1) * q == i * q + q) by (nonlinear_arith);
}

/// Chunk sizes differ by at most one, never grow from one chunk to the next,
/// and add up to the number of items.
pub proof fn law_chunk_sizes_balanced(len: int, n: int, i: int, j: int)
    requires
        len >= 0,
        n > 0,
        0 <= i <= j < n,
    ensures
        0 <= chunk_size(len, n, i) - chunk_size(len, n, j) <= 1,
        chunk_sizes_sum(len, n, n) == len,
{
    lemma_chunk_sizes_sum(len, n, n);
    assert(len == n * (len / n) + len % n && 0 <= len % n < n) by (nonlinear_arith)
        requires
            n > 0,
            len >= 0,
    ;
}

/// Sum of the first `k` chunk sizes.
pub open spec fn chunk_sizes_sum(len: int, n: int, k: int) -> int
    decreases k,
{
    if k <= 0 {
        0
    } else {
        chunk_sizes_sum(len, n, k - 1) + chunk_size(len, n, k - 1)
    }
}

proof fn lemma_chunk_sizes_sum(len: int, n: int, k: int)
    requires
        len >= 0,
        n > 0,
        0 <= k <= n,
    ensures
        chunk_sizes_sum(len, n, k) == k * (len / n) + (if k < len % n { k } else { len % n }),
    decreases k,
{
    if k > 0 {
        lemma_chunk_sizes_sum(len, n, k - 1);
        lemma_chunks_taken(len, n, k - 1);
    } else {
        assert(0 * (len / n) == 0);
        assert(len % n >= 0) by (nonlinear_arith)
            requires
                n > 0,
        ;
    }
}

/// Deals `list` into `number_of_chunks` consecutive chunks whose sizes differ
/// by at most one, the larger chunks first.
pub fn split_into_maximal_sublists<T>(list: Vec<T>, number_of_chunks: usize) -> (res: Vec<Vec<T>>)
    requires
        number_of_chunks > 0,
    ensures
        res@.len() == number_of_chunks,
        forall|i: int|
            0 <= i < number_of_chunks ==> (#[trigger] res@[i])@.len() == chunk_size(
                list@.len() as int,
                number_of_chunks as int,
                i,
            ),
        flatten(res@) == list@,
{
    let len = list.len();
    let quotient = len / number_of_chunks;
    let remainder = len % number_of_chunks;
    let ghost l = list@;
    let mut rest = list;
    let mut chunks: Vec<Vec<T>> = Vec::new();
    let mut taken: usize = 0;
    let mut i: usize = 0;
    while i < number_of_chunks
        invariant
            number_of_chunks > 0,
            len == l.len(),
            quotient == len / number_of_chunks,
            remainder == len % number_of_chunks,
            0 <= i <= number_of_chunks,
            chunks@.len() == i,
            taken == i * quotient + (if i < remainder { i as int } else { remainder as int }),
            taken <= len,
            flatten(chunks@) + rest@ == l,
            flatten(chunks@).len() == taken,
            forall|j: int| 0 <= j < i ==> (#[trigger] chunks@[j])@.len() == chunk_size(len as int, number_of_chunks as int, j),
        decreases number_of_chunks - i,
    {
        proof {
            lemma_chunks_taken(len as int, number_of_chunks as int, i as int);
        }
        let size = if i < remainder { quotient + 1 } else { quotient };
        let ghost before = chunks@;
        let ghost rest_before = rest@;
        let tail = rest.split_off(size);
        chunks.push(rest);
        rest = tail;
        assert(chunks@.drop_last() =~= before);
        assert(flatten(chunks@) =~= flatten(before) + rest_before.subrange(0, size as int));
        assert(flatten(chunks@) + rest@ =~= flatten(before) + rest_before);
        taken = taken + size;
        i += 1;
    }
    assert(len == number_of_chunks * quotient + remainder && remainder < number_of_chunks) by (nonlinear_arith)
        requires
            number_of_chunks > 0,
            quotient == len / number_of_chunks,
            remainder == len % number_of_chunks,
    ;
    assert(taken == len);
    assert((flatten(chunks@) + rest@).len() == l.len());
    assert(rest@.len() == 0);
    assert(flatten(chunks@) + rest@ =~= flatten(chunks@));
    chunks
}

/// The largest of the numbers, or `0` when there is none.
pub open spec fn max_or_zero(s: Seq<u32>) -> u32
    decreases s.len(),
{
    if s.len() == 0 {
        0
    } else {
        let m = max_or_zero(s.drop_last());
        if s.last() > m {
            s.last()
        } else {
            m
        }
    }
}

/// The number of the last backup of a run: the largest backup number, `0`
/// when the run has none.
pub fn max_backup_id(ids: &Vec<u32>) -> (res: u32)
    ensures
        res == max_or_zero(ids@),
        forall|i: int| 0 <= i < ids@.len() ==> #[trigger] ids@[i] <= res,
        res == 0 || ids@.contains(res),
{
    let mut max_id: u32 = 0;
    let mut i: usize = 0;
    assert(ids@.take(0) =~= Seq::<u32>::empty());
    while i < ids.len()
        invariant
            0 <= i <= ids@.len(),
            max_id == max_or_zero(ids@.take(i as int)),
            forall|j: int| 0 <= j < i ==> #[trigger] ids@[j] <= max_id,
            max_id == 0 || ids@.take(i as int).contains(max_id),
        decreases ids@.len() - i,
    {
        assert(ids@.take(i + 1).drop_last() =~= ids@.take(i as int));
        if ids[i] > max_id {
            max_id = ids[i];
            assert(ids@.take(i + 1)[i as int] == max_id);
        } else if max_id != 0 {
            proof {
                let k = choose|k: int| 0 <= k < i && #[trigger] ids@.take(i as int)[k] == max_id;
                assert(ids@.take(i + 1)[k] == max_id);
            }
        }
        i += 1;
    }
    assert(ids@.take(ids@.len() as int) =~= ids@);
    max_id
}

/// The recordings a relaunch aims at; relaunching needs a recordings goal.
pub fn recordings_goal(halting_condition: &HaltingCondition) -> (res: u32)
    requires
        halting_condition is Recordings,
    ensures
        halting_condition matches HaltingCondition::Recordings(rec) && res == rec,
{
    match halting_condition {
        HaltingCondition::Recordings(rec) => *rec,
        HaltingCondition::Time(_) => {
            assert(false);
            0
        },
    }
}

/// Recordings that a run has made after `max_backup_id` full backups.
pub open spec fn recordings_done(max_backup_id: u32, recordings_until_backup: usize) -> int {
    max_backup_id * ((recordings_until_backup as u32) as int)
}

/// A run whose last backup is number `m`, each backup holding `r`
/// recordings, has made exactly `m * r` recordings (for every `r` that a
/// backup can count, up to `u32::MAX`); so it needs a relaunch exactly when
/// `m * r` is below the goal, and a relaunch asks for the `g - m * r`
/// recordings left.
pub proof fn law_recordings_done_counts_batches(m: u32, r: usize, g: u32)
    requires
        r <= u32::MAX,
    ensures
        recordings_done(m, r) == m * r,
        (recordings_done(m, r) < g) <==> (m * r < g),
        m * r < g ==> g - recordings_done(m, r) == g - m * r,
{
}

/// Whether a run whose last backup is `max_backup_id` has not reached its
/// recordings goal.
pub fn needs_relaunch(max_backup_id: u32, recordings_until_backup: usize, recordings_goal: u32) -> (res: bool)
    requires
        recordings_done(max_backup_id, recordings_until_backup) <= u32::MAX,
    ensures
        res == (recordings_done(max_backup_id, recordings_until_backup) < recordings_goal),
{
    !(max_backup_id * (recordings_until_backup as u32) >= recordings_goal)
}

pub open spec fn runs_view(v: Seq<(String, u32)>) -> Seq<(Seq<char>, u32)> {
    v.map_values(|p: (String, u32)| (p.0@, p.1))
}

/// The runs that have not reached `recordings_goal`, each with the number
/// of its last backup, in the order given.
pub open spec fn runs_to_relaunch(
    experiments: Seq<(String, Vec<u32>)>,
    recordings_until_backup: usize,
    recordings_goal: u32,
) -> Seq<(Seq<char>, u32)>
    decreases experiments.len(),
{
    if experiments.len() == 0 {
        Seq::empty()
    } else {
        let rest = runs_to_relaunch(experiments.drop_last(), recordings_until_backup, recordings_goal);
        let (name, ids) = experiments.last();
        let m = max_or_zero(ids@);
        if recordings_done(m, recordings_until_backup) >= recordings_goal {
            rest
        } else {
            rest.push((name@, m))
        }
    }
}

/// From the runs of a sweep, each given by its directory and the numbers of
/// its backup files, picks those that have not reached the sweep's
/// recordings goal, with the number of their last backup.
pub fn experiments_to_reboot(
    experiments: &Vec<(String, Vec<u32>)>,
    halting_condition: &HaltingCondition,
    recordings_until_backup: usize,
) -> (res: Vec<(String, u32)>)
    requires
        halting_condition is Recordings,
        forall|i: int|
            0 <= i < experiments@.len() ==> recordings_done(
                max_or_zero((#[trigger] experiments@[i]).1@),
                recordings_until_backup,
            ) <= u32::MAX,
    ensures
        halting_condition matches HaltingCondition::Recordings(goal) && runs_view(res@)
            == runs_to_relaunch(experiments@, recordings_until_backup, *goal),
{
    let goal = recordings_goal(halting_condition);
    let mut res: Vec<(String, u32)> = Vec::new();
    let mut i: usize = 0;
    assert(experiments@.take(0) =~= Seq::<(String, Vec<u32>)>::empty());
    assert(runs_view(res@) =~= Seq::<(Seq<char>, u32)>::empty());
    while i < experiments.len()
        invariant
            0 <= i <= experiments@.len(),
            forall|i: int|
                0 <= i < experiments@.len() ==> recordings_done(
                    max_or_zero((#[trigger] experiments@[i]).1@),
                    recordings_until_backup,
                ) <= u32::MAX,
            runs_view(res@) == runs_to_relaunch(experiments@.take(i as int), recordings_until_backup, goal),
        decreases experiments@.len() - i,
    {
        assert(experiments@.take(i + 1).drop_last() =~= experiments@.take(i as int));
        let m = max_backup_id(&experiments[i].1);
        if needs_relaunch(m, recordings_until_backup, goal) {
            let name = experiments[i].0.clone();
            let ghost before = res@;
            res.push((name, m));
            assert(runs_view(res@) =~= runs_view(before).push((experiments@[i as int].0@, m)));
        }
        i += 1;
    }
    assert(experiments@.take(experiments@.len() as int) =~= experiments@);
    res
}

/// The parameters that relaunch a run from its last backup `max_backup_id`:
/// it records what is left to its goal and numbers its backups on from the
/// last one.
pub fn relaunch_parameters(
    parent_path: String,
    max_backup_id: u32,
    recordings_goal: u32,
    recording_skip: usize,
    recordings_until_backup: usize,
    run_id: u32,
) -> (res: ExecutorParameters)
    requires
        recordings_done(max_backup_id, recordings_until_backup) < recordings_goal,
        max_backup_id < u32::MAX,
    ensures
        res.halting_condition == HaltingCondition::Recordings(
            (recordings_goal - recordings_done(max_backup_id, recordings_until_backup)) as u32,
        ),
        res.recording_skip == recording_skip as u32,
        res.recordings_until_backup == recordings_until_backup as u32,
        res.run_id == run_id,
        res.parent_path@ == parent_path@,
        res.backup_number == max_backup_id + 1,
{
    let recordings_to_go = recordings_goal - max_backup_id * (recordings_until_backup as u32);
    ExecutorParameters {
        halting_condition: HaltingCondition::Recordings(recordings_to_go),
        recording_skip: recording_skip as u32,
        recordings_until_backup: recordings_until_backup as u32,
        run_id,
        parent_path,
        backup_number: max_backup_id + 1,
    }
}

/// One run of a sweep: its number, lattice shape and couplings (the bit
/// patterns of the `f32` values).
#[derive(Clone, Copy, Debug, PartialEq, Eq)]
pub struct SweepRun {
    pub run_id: u32,
    pub shape: [usize; 4],
    pub beta_bits: u32,
    pub lambda_bits: u32,
}

/// A point of a sweep: lattice shape and the bit patterns of the couplings.
pub type SweepPoint = ([usize; 4], u32, u32);

/// The points of the first `n` couplings `lambdas` at `shape` and `beta`,
/// each repeated `per_point` times.
pub open spec fn lambda_points(shape: [usize; 4], beta: u32, lambdas: Seq<u32>, per_point: nat, n: int) -> Seq<
    SweepPoint,
>
    decreases n,
{
    if n <= 0 {
        Seq::empty()
    } else {
        lambda_points(shape, beta, lambdas, per_point, n - 1) + Seq::new(
            per_point,
            |i: int| (shape, beta, lambdas[n - 1]),
        )
    }
}

/// The points of the first `n` couplings `betas` at `shape`, each with
/// every lambda.
pub open spec fn beta_points(shape: [usize; 4], betas: Seq<u32>, lambdas: Seq<u32>, per_point: nat, n: int) -> Seq<
    SweepPoint,
>
    decreases n,
{
    if n <= 0 {
        Seq::empty()
    } else {
        beta_points(shape, betas, lambdas, per_point, n - 1) + lambda_points(
            shape,
            betas[n - 1],
            lambdas,
            per_point,
            lambdas.len() as int,
        )
    }
}

/// The points of the first `n` shapes, each with every beta.
pub open spec fn shape_points(shapes: Seq<[usize; 4]>, betas: Seq<u32>, lambdas: Seq<u32>, per_point: nat, n: int) -> Seq<
    SweepPoint,
>
    decreases n,
{
    if n <= 0 {
        Seq::empty()
    } else {
        shape_points(shapes, betas, lambdas, per_point, n - 1) + beta_points(
            shapes[n - 1],
            betas,
            lambdas,
            per_point,
            betas.len() as int,
        )
    }
}

pub open spec fn point_of(r: SweepRun) -> SweepPoint {
    (r.shape, r.beta_bits, r.lambda_bits)
}

proof fn lemma_points_len(shapes: Seq<[usize; 4]>, betas: Seq<u32>, lambdas: Seq<u32>, per_point: nat, n: int)
    requires
        0 <= n <= shapes.len(),
    ensures
        shape_points(shapes, betas, lambdas, per_point, n).len() == n * (betas.len() * (lambdas.len() * per_point)),
    decreases n,
{
    if n > 0 {
        lemma_points_len(shapes, betas, lambdas, per_point, n - 1);
        lemma_beta_len(shapes[n - 1], betas, lambdas, per_point, betas.len() as int);
        let prev = shape_points(shapes, betas, lambdas, per_point, n - 1);
        let tail = beta_points(shapes[n - 1], betas, lambdas, per_point, betas.len() as int);
        assert(shape_points(shapes, betas, lambdas, per_point, n) == prev + tail);
        assert((prev + tail).len() == prev.len() + tail.len());
        let m = betas.len() * (lambdas.len() * per_point);
        assert(n * m == (n - 1) * m + m) by (nonlinear_arith);
    } else {
        assert(n * (betas.len() * (lambdas.len() * per_point)) == 0) by (nonlinear_arith) requires n == 0;
    }
}

proof fn lemma_beta_len(shape: [usize; 4], betas: Seq<u32>, lambdas: Seq<u32>, per_point: nat, n: int)
    requires
        0 <= n <= betas.len(),
    ensures
        beta_points(shape, betas, lambdas, per_point, n).len() == n * (lambdas.len() * per_point),
    decreases n,
{
    if n > 0 {
        lemma_beta_len(shape, betas, lambdas, per_point, n - 1);
        lemma_lambda_len(shape, betas[n - 1], lambdas, per_point, lambdas.len() as int);
        let prev = beta_points(shape, betas, lambdas, per_point, n - 1);
        let tail = lambda_points(shape, betas[n - 1], lambdas, per_point, lambdas.len() as int);
        assert(beta_points(shape, betas, lambdas, per_point, n) == prev + tail);
        assert((prev + tail).len() == prev.len() + tail.len());
        let m = lambdas.len() * per_point;
        assert(n * m == (n - 1) * m + m) by (nonlinear_arith);
    } else {
        assert(n * (lambdas.len() * per_point) == 0) by (nonlinear_arith) requires n == 0;
    }
}

proof fn lemma_lambda_len(shape: [usize; 4], beta: u32, lambdas: Seq<u32>, per_point: nat, n: int)
    requires
        0 <= n <= lambdas.len(),
    ensures
        lambda_points(shape, beta, lambdas, per_point, n).len() == n * per_point,
    decreases n,
{
    if n > 0 {
        lemma_lambda_len(shape, beta, lambdas, per_point, n - 1);
        let prev = lambda_points(shape, beta, lambdas, per_point, n - 1);
        let tail = Seq::new(per_point, |i: int| (shape, beta, lambdas[n - 1]));
        assert(lambda_points(shape, beta, lambdas, per_point, n) == prev + tail);
        assert((prev + tail).len() == prev.len() + tail.len());
        assert(n * per_point == (n - 1) * per_point + per_point) by (nonlinear_arith);
    } else {
        assert(n * per_point == 0) by (nonlinear_arith) requires n == 0;
    }
}

/// The runs of a sweep, numbered from 1: for every shape, every beta and
/// every lambda, in that nesting, `per_point` runs.
pub fn sweep_runs(shapes: &Vec<[usize; 4]>, betas: &Vec<u32>, lambdas: &Vec<u32>, per_point: usize) -> (res: Vec<SweepRun>)
    requires
        shapes@.len() * (betas@.len() * (lambdas@.len() * per_point)) < u32::MAX,
    ensures
        res@.map_values(|r: SweepRun| point_of(r)) == shape_points(
            shapes@,
            betas@,
            lambdas@,
            per_point as nat,
            shapes@.len() as int,
        ),
        forall|k: int| 0 <= k < res@.len() ==> #[trigger] res@[k].run_id == k + 1,
{
    let ghost sh = shapes@;
    let ghost bs = betas@;
    let ghost ls = lambdas@;
    let ghost pp = per_point as nat;
    let ghost total = sh.len() * (bs.len() * (ls.len() * pp));
    let mut res: Vec<SweepRun> = Vec::new();
    let mut s: usize = 0;
    while s < shapes.len()
        invariant
            sh == shapes@, bs == betas@, ls == lambdas@, pp == per_point as nat,
            total == sh.len() * (bs.len() * (ls.len() * pp)),
            total < u32::MAX,
            0 <= s <= sh.len(),
            res@.map_values(|r: SweepRun| point_of(r)) == shape_points(sh, bs, ls, pp, s as int),
            forall|k: int| 0 <= k < res@.len() ==> #[trigger] res@[k].run_id == k + 1,
        decreases sh.len() - s,
    {
        let ghost before_s = shape_points(sh, bs, ls, pp, s as int);
        proof {
            lemma_points_len(sh, bs, ls, pp, s + 1);
            assert((s + 1) * (bs.len() * (ls.len() * pp)) <= total) by (nonlinear_arith)
                requires
                    s + 1 <= sh.len(),
                    total == sh.len() * (bs.len() * (ls.len() * pp)),
            ;
        }
        let shape = shapes[s];
        let mut b: usize = 0;
        while b < betas.len()
            invariant
                sh == shapes@, bs == betas@, ls == lambdas@, pp == per_point as nat,
                total < u32::MAX,
                0 <= s < sh.len(),
                shape == sh[s as int],
                before_s == shape_points(sh, bs, ls, pp, s as int),
                shape_points(sh, bs, ls, pp, s + 1).len() <= total,
                0 <= b <= bs.len(),
                res@.map_values(|r: SweepRun| point_of(r)) == before_s + beta_points(shape, bs, ls, pp, b as int),
                forall|k: int| 0 <= k < res@.len() ==> #[trigger] res@[k].run_id == k + 1,
            decreases bs.len() - b,
        {
            let ghost before_b = beta_points(shape, bs, ls, pp, b as int);
            proof {
                lemma_beta_len(shape, bs, ls, pp, b + 1);
                lemma_beta_len(shape, bs, ls, pp, bs.len() as int);
                assert((b + 1) * (ls.len() * pp) <= bs.len() * (ls.len() * pp)) by (nonlinear_arith)
                    requires
                        b + 1 <= bs.len(),
            ;
            }
            let beta = betas[b];
            let mut l: usize = 0;
            while l < lambdas.len()
                invariant
                    sh == shapes@, bs == betas@, ls == lambdas@, pp == per_point as nat,
                    total < u32::MAX,
                    0 <= s < sh.len(),
                    0 <= b < bs.len(),
                    shape == sh[s as int],
                    beta == bs[b as int],
                    before_s == shape_points(sh, bs, ls, pp, s as int),
                    before_b == beta_points(shape, bs, ls, pp, b as int),
                    shape_points(sh, bs, ls, pp, s + 1).len() <= total,
                    before_s.len() + beta_points(shape, bs, ls, pp, b + 1).len() <= shape_points(
                        sh,
                        bs,
                        ls,
                        pp,
                        s + 1,
                    ).len(),
                    0 <= l <= ls.len(),
                    res@.map_values(|r: SweepRun| point_of(r)) == before_s + before_b + lambda_points(
                        shape,
                        beta,
                        ls,
                        pp,
                        l as int,
                    ),
                    forall|k: int| 0 <= k < res@.len() ==> #[trigger] res@[k].run_id == k + 1,
                decreases ls.len() - l,
            {
                let ghost before_l = lambda_points(shape, beta, ls, pp, l as int);
                proof {
                    lemma_lambda_len(shape, beta, ls, pp, l + 1);
                    lemma_lambda_len(shape, beta, ls, pp, ls.len() as int);
                    assert((l + 1) * pp <= ls.len() * pp) by (nonlinear_arith)
                        requires
                            l + 1 <= ls.len(),
                    ;
                    lemma_beta_len(shape, bs, ls, pp, b as int);
                    lemma_beta_len(shape, bs, ls, pp, b + 1);
                }
                let lambda = lambdas[l];
                let mut p: usize = 0;
                while p < per_point
                    invariant
                        sh == shapes@, bs == betas@, ls == lambdas@, pp == per_point as nat,
                        total < u32::MAX,
                        shape == sh[s as int],
                        beta == bs[b as int],
                        0 <= l < ls.len(),
                        lambda == ls[l as int],
                        before_s.len() + before_b.len() + before_l.len() + pp <= total,
                        0 <= p <= per_point,
                        res@.map_values(|r: SweepRun| point_of(r)) == before_s + before_b + before_l + Seq::new(
                            p as nat,
                            |i: int| (shape, beta, lambda),
                        ),
                        forall|k: int| 0 <= k < res@.len() ==> #[trigger] res@[k].run_id == k + 1,
                    decreases per_point - p,
                {
                    let ghost old_res = res@;
                    let n = res.len();
                    assert(old_res.map_values(|r: SweepRun| point_of(r)).len() == n);
                    let run = SweepRun { run_id: (n + 1) as u32, shape, beta_bits: beta, lambda_bits: lambda };
                    res.push(run);
                    assert(res@.map_values(|r: SweepRun| point_of(r)) =~= old_res.map_values(
                        |r: SweepRun| point_of(r),
                    ).push((shape, beta, lambda)));
                    assert(res@.map_values(|r: SweepRun| point_of(r)) =~= before_s + before_b + before_l
                        + Seq::new((p + 1) as nat, |i: int| (shape, beta, lambda)));
                    p += 1;
                }
                assert(before_l + Seq::new(pp, |i: int| (shape, beta, lambda)) =~= lambda_points(
                    shape,
                    beta,
                    ls,
                    pp,
                    l + 1,
                ));
                assert(res@.map_values(|r: SweepRun| point_of(r)) =~= before_s + before_b + lambda_points(
                    shape,
                    beta,
                    ls,
                    pp,
                    l + 1,
                ));
                l += 1;
            }
            assert(before_b + lambda_points(shape, beta, ls, pp, ls.len() as int) =~= beta_points(
                shape,
                bs,
                ls,
                pp,
                b + 1,
            ));
            assert(res@.map_values(|r: SweepRun| point_of(r)) =~= before_s + beta_points(
                shape,
                bs,
                ls,
                pp,
                b + 1,
            ));
            b += 1;
        }
        assert(res@.map_values(|r: SweepRun| point_of(r)) =~= shape_points(sh, bs, ls, pp, s + 1));
        s += 1;
    }
    res
}

} // verus!
