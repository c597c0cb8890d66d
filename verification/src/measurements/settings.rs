//! Settings of a phase-diagram sweep that hold no floating-point value: the
//! lattice shapes to run on, the cluster job, the halting condition.
use vstd::prelude::*;
use vstd::string::StringExecFns;

verus! {

/// When a run stops: after a number of recordings, or after a wall-clock
/// time.
#[derive(Clone, Copy, Debug, PartialEq, Eq)]
pub enum HaltingCondition {
    Recordings(u32),
    Time(DurationWrapper),
}

/// A duration, in whole seconds (the unit it is stored in).
#[derive(Clone, Copy, Debug, PartialEq, Eq)]
pub struct DurationWrapper(pub i64);

/// What a run records.
#[derive(Clone, Copy, Debug, PartialEq, Eq)]
pub enum MesaurementType {
    Polyakovloops,
    SaveEdges,
    PloopPloopCorrCorr,
}

#[derive(Clone, Debug, PartialEq, Eq)]
pub enum ClusterQueue {
    Test,
    Shared,
}

impl Default for ClusterQueue {
    fn default() -> (res: Self)
        ensures
            res == ClusterQueue::Shared,
    {
        ClusterQueue::Shared
    }
}

impl ClusterQueue {
    /// The partition name that the batch system knows the queue by.
    pub fn partition(&self) -> (res: &'static str)
        ensures
            res@ == (match self {
                ClusterQueue::Test => "test"@,
                ClusterQueue::Shared => "shared"@,
            }),
    {
        match self {
            ClusterQueue::Test => "test",
            ClusterQueue::Shared => "shared",
        }
    }
}

#[derive(Clone, Debug, Default, PartialEq, Eq)]
pub struct ClusterTime {
    pub days: u32,
    pub hours: u32,
    pub minutes: u32,
    pub seconds: u32,
}

/// The resources of a cluster job; `ram` and `temporary_storage` in GB.
#[derive(Clone, Debug, Default)]
pub struct ClusterSettings {
    pub cluster_time: ClusterTime,
    pub ram: usize,
    pub temporary_storage: usize,
    pub email: String,
    pub queue: ClusterQueue,
}

/// Settings for restarting the unfinished runs of a sweep.
#[derive(Clone, Debug)]
pub struct RelaunchSettings {
    pub folder_path: String,
    pub max_threads: usize,
    pub measurement_type: MesaurementType,
    pub cluster_settings: ClusterSettings,
    pub z_order: usize,
}

/// The lattice shapes of a sweep: one shape, a list, the hypercubes
/// `[i, i, i, i]` for `i` in a range, or those for the even `i` between two
/// even bounds (both included).
#[derive(Debug)]
pub enum LatticeShapes {
    Single([usize; 4]),
    Custom(Vec<[usize; 4]>),
    Sweep(std::ops::Range<usize>),
    Evens([usize; 2]),
}

pub open spec fn hypercube(i: int) -> [usize; 4] {
    [i as usize, i as usize, i as usize, i as usize]
}

impl LatticeShapes {
    /// The shapes are well formed: the bounds of `Evens` are even.
    pub open spec fn valid(&self) -> bool {
        match self {
            LatticeShapes::Evens(b) => b[0] % 2 == 0 && b[1] % 2 == 0,
            _ => true,
        }
    }

    /// The list of shapes, in increasing order of the hypercube size.
    pub fn to_shapes(self) -> (res: Vec<[usize; 4]>)
        requires
            self.valid(),
        ensures
            self matches LatticeShapes::Single(s) ==> res@ == seq![s],
            self matches LatticeShapes::Custom(v) ==> res@ == v@,
            self matches LatticeShapes::Sweep(r) ==> {
                &&& res@.len() == (if r.start <= r.end { r.end - r.start } else { 0 })
                &&& forall|k: int| 0 <= k < res@.len() ==> #[trigger] res@[k] == hypercube(r.start + k)
            },
            self matches LatticeShapes::Evens(b) ==> {
                &&& res@.len() == (if b[0] <= b[1] { (b[1] - b[0]) / 2 + 1 } else { 0 })
                &&& forall|k: int| 0 <= k < res@.len() ==> #[trigger] res@[k] == hypercube(b[0] + 2 * k)
            },
    {
        let ghost s0 = self;
        match self {
            LatticeShapes::Single(shape) => {
                let mut shapes: Vec<[usize; 4]> = Vec::new();
                shapes.push(shape);
                assert(shapes@ =~= seq![shape]);
                shapes
            },
            LatticeShapes::Custom(shapes) => shapes,
            LatticeShapes::Sweep(range) => {
                let mut shapes: Vec<[usize; 4]> = Vec::new();
                let mut i: usize = range.start;
                while i < range.end
                    invariant
                        s0 == LatticeShapes::Sweep(range),
                        range.start <= i,
                        i <= range.end || i == range.start,
                        shapes@.len() == i - range.start,
                        forall|k: int| 0 <= k < shapes@.len() ==> #[trigger] shapes@[k] == hypercube(range.start + k),
                    decreases range.end - i,
                {
                    shapes.push([i, i, i, i]);
                    i += 1;
                }
                shapes
            },
            LatticeShapes::Evens(bounds) => {
                let start = bounds[0];
                let end = bounds[1];
                let mut shapes: Vec<[usize; 4]> = Vec::new();
                if start > end {
                    return shapes;
                }
                let n = (end - start) / 2 + 1;
                let mut k: usize = 0;
                while k < n
                    invariant
                        s0 == LatticeShapes::Evens(bounds),
                        start == bounds[0],
                        end == bounds[1],
                        start <= end,
                        n == (end - start) / 2 + 1,
                        0 <= k <= n,
                        shapes@.len() == k,
                        forall|j: int| 0 <= j < shapes@.len() ==> #[trigger] shapes@[j] == hypercube(start + 2 * j),
                    decreases n - k,
                {
                    let i = start + 2 * k;
                    shapes.push([i, i, i, i]);
                    k += 1;
                }
                shapes
            },
        }
    }
}

/// The character of the decimal digit `d`.
pub open spec fn digit_char(d: nat) -> char {
    ((d + ('0' as u32)) as u32) as char
}

/// The decimal representation of `n`, without leading zeros.
pub open spec fn decimal_digits(n: nat) -> Seq<char>
    decreases n,
{
    if n < 10 {
        seq![digit_char(n)]
    } else {
        decimal_digits(n / 10).push(digit_char(n % 10))
    }
}

fn digit_str(d: u64) -> (res: &'static str)
    requires
        d < 10,
    ensures
        res@ == seq![digit_char(d as nat)],
{
    proof {
        reveal_strlit("0");
        reveal_strlit("1");
        reveal_strlit("2");
        reveal_strlit("3");
        reveal_strlit("4");
        reveal_strlit("5");
        reveal_strlit("6");
        reveal_strlit("7");
        reveal_strlit("8");
        reveal_strlit("9");
    }
    let res = if d == 0 {
        "0"
    } else if d == 1 {
        "1"
    } else if d == 2 {
        "2"
    } else if d == 3 {
        "3"
    } else if d == 4 {
        "4"
    } else if d == 5 {
        "5"
    } else if d == 6 {
        "6"
    } else if d == 7 {
        "7"
    } else if d == 8 {
        "8"
    } else {
        "9"
    };
    assert(res@ =~= seq![digit_char(d as nat)]);
    res
}

/// Appends the decimal representation of `n` to `out`.
pub fn append_decimal(out: &mut String, n: u64)
    ensures
        final(out)@ == old(out)@ + decimal_digits(n as nat),
    decreases n,
{
    if n >= 10 {
        append_decimal(out, n / 10);
    }
    out.append(digit_str(n % 10));
    assert(final(out)@ =~= old(out)@ + decimal_digits(n as nat)) by {
        if n >= 10 {
            assert(decimal_digits(n as nat) == decimal_digits((n / 10) as nat).push(digit_char((n % 10) as nat)));
        }
    }
}

/// The ISO 8601 text of a whole number of seconds `s`: `P0D` for zero, else
/// `PT<s>S`, with a leading `-` when `s` is negative.
pub open spec fn duration_text(s: int) -> Seq<char> {
    if s == 0 {
        "P0D"@
    } else if s > 0 {
        "PT"@ + decimal_digits(s as nat) + "S"@
    } else {
        "-PT"@ + decimal_digits((-s) as nat) + "S"@
    }
}

/// The seconds that a duration can hold: at most `i64::MAX` milliseconds
/// either way.
pub open spec fn representable_seconds(s: i64) -> bool {
    -9_223_372_036_854_775 <= s <= 9_223_372_036_854_775
}

impl HaltingCondition {
    /// The condition as text: `Recordings: <n>` or `Time: <duration>`, the
    /// duration in ISO 8601.
    pub fn to_text(&self) -> (res: String)
        requires
            self matches HaltingCondition::Time(d) ==> representable_seconds(d.0),
        ensures
            res@ == (match self {
                HaltingCondition::Recordings(r) => "Recordings: "@ + decimal_digits(*r as nat),
                HaltingCondition::Time(d) => "Time: "@ + duration_text(d.0 as int),
            }),
    {
        let mut out = String::new();
        match self {
            HaltingCondition::Recordings(r) => {
                out.append("Recordings: ");
                append_decimal(&mut out, *r as u64);
            },
            HaltingCondition::Time(d) => {
                out.append("Time: ");
                let s = d.0;
                if s == 0 {
                    out.append("P0D");
                } else if s > 0 {
                    out.append("PT");
                    append_decimal(&mut out, s as u64);
                    out.append("S");
                } else {
                    out.append("-PT");
                    append_decimal(&mut out, (-s) as u64);
                    out.append("S");
                }
            },
        }
        out
    }
}

/// The batch script of a sweep job: the cluster resources as `#SBATCH`
/// lines, then the command that runs the sweep on `config_file`.
pub open spec fn sweep_batch_script(number_of_threads: usize, c: ClusterSettings, config_file: Seq<char>) -> Seq<char> {
    "#!/bin/bash\n\n# Request resources:\n#SBATCH -c "@ + decimal_digits(number_of_threads as nat)
        + "\n#SBATCH --time="@ + decimal_digits(c.cluster_time.days as nat) + "-"@ + decimal_digits(
        c.cluster_time.hours as nat,
    ) + ":"@ + decimal_digits(c.cluster_time.minutes as nat) + ":"@ + decimal_digits(
        c.cluster_time.seconds as nat,
    ) + "\n#SBATCH --mem="@ + decimal_digits(c.ram as nat) + "G\n#SBATCH --gres=tmp:"@
        + decimal_digits(c.temporary_storage as nat) + "G\n#SBATCH --mail-user="@ + c.email@
        + "\n#SBATCH --mail-type=ALL\n#SBATCH -p "@ + (match c.queue {
        ClusterQueue::Test => "test"@,
        ClusterQueue::Shared => "shared"@,
    }) + "\n\n\n#Commands to be run:\n"@ + "cargo run --manifest-path z_n_gauge/Cargo.toml --release --example run_sweep "@
        + config_file
}

/// The batch script of a phase-diagram job: as `sweep_batch_script`, with
/// the temporary storage requested by `--tmp` and the sweep run by the
/// executable at `path_to_executable`.
pub open spec fn phase_diagram_batch_script(
    number_of_threads: usize,
    c: ClusterSettings,
    path_to_executable: Seq<char>,
    config_file: Seq<char>,
) -> Seq<char> {
    "#!/bin/bash\n\n# Request resources:\n#SBATCH -c "@ + decimal_digits(number_of_threads as nat)
        + "\n#SBATCH --time="@ + decimal_digits(c.cluster_time.days as nat) + "-"@ + decimal_digits(
        c.cluster_time.hours as nat,
    ) + ":"@ + decimal_digits(c.cluster_time.minutes as nat) + ":"@ + decimal_digits(
        c.cluster_time.seconds as nat,
    ) + "\n#SBATCH --mem="@ + decimal_digits(c.ram as nat) + "G\n#SBATCH --tmp="@
        + decimal_digits(c.temporary_storage as nat) + "G\n#SBATCH --mail-user="@ + c.email@
        + "\n#SBATCH --mail-type=ALL\n#SBATCH -p "@ + (match c.queue {
        ClusterQueue::Test => "test"@,
        ClusterQueue::Shared => "shared"@,
    }) + "\n\n\n#Commands to be run:\n"@ + "./"@ + path_to_executable + " "@ + config_file
}

fn append_resources(out: &mut String, number_of_threads: usize, c: &ClusterSettings)
    ensures
        final(out)@ == old(out)@ + "#!/bin/bash\n\n# Request resources:\n#SBATCH -c "@ + decimal_digits(
            number_of_threads as nat,
        ) + "\n#SBATCH --time="@ + decimal_digits(c.cluster_time.days as nat) + "-"@ + decimal_digits(
            c.cluster_time.hours as nat,
        ) + ":"@ + decimal_digits(c.cluster_time.minutes as nat) + ":"@ + decimal_digits(
            c.cluster_time.seconds as nat,
        ) + "\n#SBATCH --mem="@ + decimal_digits(c.ram as nat),
{
    out.append("#!/bin/bash\n\n# Request resources:\n#SBATCH -c ");
    append_decimal(out, number_of_threads as u64);
    out.append("\n#SBATCH --time=");
    append_decimal(out, c.cluster_time.days as u64);
    out.append("-");
    append_decimal(out, c.cluster_time.hours as u64);
    out.append(":");
    append_decimal(out, c.cluster_time.minutes as u64);
    out.append(":");
    append_decimal(out, c.cluster_time.seconds as u64);
    out.append("\n#SBATCH --mem=");
    append_decimal(out, c.ram as u64);
}

fn append_contact(out: &mut String, c: &ClusterSettings)
    ensures
        final(out)@ == old(out)@ + decimal_digits(c.temporary_storage as nat) + "G\n#SBATCH --mail-user="@
            + c.email@ + "\n#SBATCH --mail-type=ALL\n#SBATCH -p "@ + (match c.queue {
            ClusterQueue::Test => "test"@,
            ClusterQueue::Shared => "shared"@,
        }) + "\n\n\n#Commands to be run:\n"@,
{
    append_decimal(out, c.temporary_storage as u64);
    out.append("G\n#SBATCH --mail-user=");
    out.append(c.email.as_str());
    out.append("\n#SBATCH --mail-type=ALL\n#SBATCH -p ");
    out.append(c.queue.partition());
    out.append("\n\n\n#Commands to be run:\n");
}

/// The batch script that `write_batch_file` writes for a sweep.
pub fn batch_file_content(number_of_threads: usize, cluster_settings: &ClusterSettings, config_file: &str) -> (res: String)
    ensures
        res@ == sweep_batch_script(number_of_threads, *cluster_settings, config_file@),
{
    let mut content = String::new();
    append_resources(&mut content, number_of_threads, cluster_settings);
    content.append("G\n#SBATCH --gres=tmp:");
    append_contact(&mut content, cluster_settings);
    content.append("cargo run --manifest-path z_n_gauge/Cargo.toml --release --example run_sweep ");
    content.append(config_file);
    assert(content@ =~= sweep_batch_script(number_of_threads, *cluster_settings, config_file@));
    content
}

/// The batch script that a phase-diagram job writes.
pub fn phase_diagram_batch_file_content(
    number_of_threads: usize,
    cluster_settings: &ClusterSettings,
    path_to_executable: &str,
    config_file: &str,
) -> (res: String)
    ensures
        res@ == phase_diagram_batch_script(
            number_of_threads,
            *cluster_settings,
            path_to_executable@,
            config_file@,
        ),
{
    let mut content = String::new();
    append_resources(&mut content, number_of_threads, cluster_settings);
    content.append("G\n#SBATCH --tmp=");
    append_contact(&mut content, cluster_settings);
    content.append("./");
    content.append(path_to_executable);
    content.append(" ");
    content.append(config_file);
    assert(content@ =~= phase_diagram_batch_script(
        number_of_threads,
        *cluster_settings,
        path_to_executable@,
        config_file@,
    ));
    content
}

} // verus!
