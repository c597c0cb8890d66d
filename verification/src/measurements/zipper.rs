//! Deciding how many backups of each run go into the archive of a sweep:
//! runs on the same lattice size are cut to the same number of backups.
use vstd::prelude::*;

verus! {

/// Whether the two lists are equal.
pub fn usize_vec_equal(a: &Vec<usize>, b: &Vec<usize>) -> (res: bool)
    ensures
        res == (a@ == b@),
{
    if a.len() != b.len() {
        return false;
    }
    let mut i: usize = 0;
    while i < a.len()
        invariant
            a@.len() == b@.len(),
            0 <= i <= a@.len(),
            forall|j: int| 0 <= j < i ==> a@[j] == b@[j],
        decreases a@.len() - i,
    {
        if a[i] != b[i] {
            return false;
        }
        i += 1;
    }
    assert(a@ =~= b@);
    true
}

/// `m` is the least backup count among the runs on the lattice size of run
/// `i`.
pub open spec fn is_group_min(sizes: Seq<Vec<usize>>, counts: Seq<usize>, i: int, m: usize) -> bool {
    &&& exists|j: int| 0 <= j < sizes.len() && sizes[j]@ == sizes[i]@ && #[trigger] counts[j] == m
    &&& forall|j: int| 0 <= j < sizes.len() && sizes[j]@ == sizes[i]@ ==> m <= #[trigger] counts[j]
}

/// For each run (given by its lattice size and its number of backups), the
/// number of backups it keeps: the least number among the runs on the same
/// lattice size.
pub fn truncation_lengths(sizes: &Vec<Vec<usize>>, counts: &Vec<usize>) -> (res: Vec<usize>)
    requires
        sizes@.len() == counts@.len(),
    ensures
        res@.len() == sizes@.len(),
        forall|i: int| 0 <= i < sizes@.len() ==> is_group_min(sizes@, counts@, i, #[trigger] res@[i]),
{
    let n = sizes.len();
    let mut res: Vec<usize> = Vec::new();
    let mut i: usize = 0;
    while i < n
        invariant
            n == sizes@.len(),
            n == counts@.len(),
            0 <= i <= n,
            res@.len() == i,
            forall|k: int| 0 <= k < i ==> is_group_min(sizes@, counts@, k, #[trigger] res@[k]),
        decreases n - i,
    {
        let mut m = counts[i];
        let mut j: usize = 0;
        while j < n
            invariant
                n == sizes@.len(),
                n == counts@.len(),
                0 <= i < n,
                0 <= j <= n,
                exists|k: int| 0 <= k < n && sizes@[k]@ == sizes@[i as int]@ && #[trigger] counts@[k] == m,
                forall|k: int| 0 <= k < j && sizes@[k]@ == sizes@[i as int]@ ==> m <= #[trigger] counts@[k],
            decreases n - j,
        {
            if counts[j] < m && usize_vec_equal(&sizes[j], &sizes[i]) {
                m = counts[j];
            }
            j += 1;
        }
        res.push(m);
        i += 1;
    }
    res
}

/// The number of backups that every run keeps when all runs are cut to the
/// same length: the least of the runs' last backup numbers.
pub fn min_backup_count(last_numbers: &Vec<u32>) -> (res: u32)
    requires
        last_numbers@.len() > 0,
    ensures
        last_numbers@.contains(res),
        forall|i: int| 0 <= i < last_numbers@.len() ==> res <= #[trigger] last_numbers@[i],
{
    let mut m = last_numbers[0];
    let mut i: usize = 1;
    while i < last_numbers.len()
        invariant
            1 <= i <= last_numbers@.len(),
            last_numbers@.contains(m),
            forall|k: int| 0 <= k < i ==> m <= #[trigger] last_numbers@[k],
        decreases last_numbers@.len() - i,
    {
        if last_numbers[i] < m {
            m = last_numbers[i];
        }
        i += 1;
    }
    m
}

} // verus!
