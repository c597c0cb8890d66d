//! The layout of a record, as the header of an `.npy` file describes it: a
//! scalar, a fixed-size array of a layout, or a list of named fields. The
//! readers take the lengths of a backup's variable parts from it.
use vstd::prelude::*;

use crate::arrays::{
    lemma_nonzero_product_pos, lemma_nonzero_product_take, lemma_product_bounded, lemma_products_fit,
    lemma_products_front,
    nonzero_product,
    prefix_products_fit, shape_product, shape_to_length,
};
use crate::experiment::backup::backup::BackUp;
use crate::experiment::backup::deserializer::{reboot_seed_at, reboot_seed_len};
use crate::experiment::backup::serializer::backup_bytes;
use crate::byte_order::{le_bytes, le_value, lemma_le_bytes_len};
use crate::measurements::backup::backup_fragments::{
    experiment_parameters_at, experiment_parameters_bytes, reboot_seed_bytes, run_info_at, run_info_bytes,
    ExperimentParameters, RunInfo,
};
use crate::measurements::backup::backup_fragments::RebootSeed;

verus! {

/// A scalar: its numpy type string (such as `<u8`) and its size in bytes,
/// where the type string gives one.
#[derive(Clone, Debug, PartialEq, Eq)]
pub struct PlainType {
    pub descr: String,
    pub size: Option<usize>,
}

#[derive(Debug)]
pub enum RecordLayout {
    Plain(PlainType),
    Array(u64, Box<RecordLayout>),
    Record(Vec<LayoutField>),
}

#[derive(Debug)]
pub struct LayoutField {
    pub name: String,
    pub layout: RecordLayout,
}

/// The size in bytes of a record of layout `l`, or `None` where a scalar has
/// no size or a count does not fit in a `usize` on the way.
pub open spec fn layout_num_bytes(l: RecordLayout) -> Option<nat>
    decreases l, 0int,
{
    match l {
        RecordLayout::Plain(t) => match t.size {
            Some(s) => Some(s as nat),
            None => None,
        },
        RecordLayout::Array(n, inner) => match layout_num_bytes(*inner) {
            Some(b) => if n <= usize::MAX && b * (n as nat) <= usize::MAX {
                Some(b * (n as nat))
            } else {
                None
            },
            None => None,
        },
        RecordLayout::Record(fs) => fields_num_bytes(fs, fs@.len() as int),
    }
}

/// The size in bytes of the first `k` fields of `fs`, summed in order.
pub open spec fn fields_num_bytes(fs: Vec<LayoutField>, k: int) -> Option<nat>
    decreases fs, k,
{
    if k <= 0 || k > fs@.len() {
        Some(0)
    } else {
        match (fields_num_bytes(fs, k - 1), layout_num_bytes(fs[k - 1].layout)) {
            (Some(a), Some(b)) => if a + b <= usize::MAX {
                Some(a + b)
            } else {
                None
            },
            _ => None,
        }
    }
}

impl RecordLayout {
    /// The size in bytes of a record of this layout (see `layout_num_bytes`).
    pub fn num_bytes(&self) -> (res: Option<usize>)
        ensures
            res matches Some(n) ==> layout_num_bytes(*self) == Some(n as nat),
            res is None ==> layout_num_bytes(*self) is None,
        decreases self,
    {
        match self {
            RecordLayout::Plain(t) => t.size,
            RecordLayout::Array(n, inner) => match inner.num_bytes() {
                Some(b) => {
                    if *n <= usize::MAX as u64 {
                        b.checked_mul(*n as usize)
                    } else {
                        None
                    }
                },
                None => None,
            },
            RecordLayout::Record(fs) => {
                let mut acc: usize = 0;
                let mut ok = true;
                let mut i: usize = 0;
                while i < fs.len()
                    invariant
                        *self == RecordLayout::Record(*fs),
                        0 <= i <= fs@.len(),
                        ok ==> fields_num_bytes(*fs, i as int) == Some(acc as nat),
                        !ok ==> fields_num_bytes(*fs, i as int) is None,
                    decreases fs@.len() - i,
                {
                    proof {
                        vstd::std_specs::vec::axiom_vec_index_decreases(*fs, i as int);
                        assert(decreases_to!(*self => (*self)->Record_0));
                        assert(decreases_to!(fs[i as int] => fs[i as int].layout));
                    }
                    let b = fs[i].layout.num_bytes();
                    if ok {
                        match b {
                            Some(b) => match acc.checked_add(b) {
                                Some(s) => {
                                    acc = s;
                                },
                                None => {
                                    ok = false;
                                },
                            },
                            None => {
                                ok = false;
                            },
                        }
                    }
                    i += 1;
                }
                if ok {
                    Some(acc)
                } else {
                    None
                }
            },
        }
    }
}

/// `l` is the scalar of type string `descr` and size `size`.
pub open spec fn is_plain(l: RecordLayout, descr: Seq<char>, size: usize) -> bool {
    &&& l matches RecordLayout::Plain(t)
    &&& t.descr@ == descr
    &&& t.size == Some(size)
}

/// `l` is nested arrays of the lengths `dims`, outermost first, of bytes.
pub open spec fn is_byte_array(l: RecordLayout, dims: Seq<usize>) -> bool
    decreases dims.len(),
{
    if dims.len() == 0 {
        is_plain(l, "<u1"@, 1)
    } else {
        &&& l matches RecordLayout::Array(n, inner)
        &&& n == dims[0] as u64
        &&& is_byte_array(*inner, dims.drop_first())
    }
}

/// Field `i` of `fs` is named `name`.
pub open spec fn field_is(fs: Seq<LayoutField>, i: int, name: Seq<char>) -> bool {
    fs[i].name@ == name
}

/// The layout of an `ExperimentParameters` record: `shape` (four `<u4`),
/// `z_order` (`<u4`), `beta` and `lambda` (`<f4`), `rng_seed` (`<u8`).
pub open spec fn is_experiment_parameters_layout(l: RecordLayout) -> bool {
    &&& l matches RecordLayout::Record(fs)
    &&& fs@.len() == 5
    &&& field_is(fs@, 0, "shape"@)
    &&& fs@[0].layout matches RecordLayout::Array(n, inner)
    &&& n == 4
    &&& is_plain(*inner, "<u4"@, 4)
    &&& field_is(fs@, 1, "z_order"@)
    &&& is_plain(fs@[1].layout, "<u4"@, 4)
    &&& field_is(fs@, 2, "beta"@)
    &&& is_plain(fs@[2].layout, "<f4"@, 4)
    &&& field_is(fs@, 3, "lambda"@)
    &&& is_plain(fs@[3].layout, "<f4"@, 4)
    &&& field_is(fs@, 4, "rng_seed"@)
    &&& is_plain(fs@[4].layout, "<u8"@, 8)
}

/// The layout of a `RunInfo` record: `recordings`, `recording_skip`,
/// `recordings_until_backup`, `backup_number` (`<u4`), `recording_time`
/// (`<i8`), `run_id` (`<u4`).
pub open spec fn is_run_info_layout(l: RecordLayout) -> bool {
    &&& l matches RecordLayout::Record(fs)
    &&& fs@.len() == 6
    &&& field_is(fs@, 0, "recordings"@)
    &&& is_plain(fs@[0].layout, "<u4"@, 4)
    &&& field_is(fs@, 1, "recording_skip"@)
    &&& is_plain(fs@[1].layout, "<u4"@, 4)
    &&& field_is(fs@, 2, "recordings_until_backup"@)
    &&& is_plain(fs@[2].layout, "<u4"@, 4)
    &&& field_is(fs@, 3, "backup_number"@)
    &&& is_plain(fs@[3].layout, "<u4"@, 4)
    &&& field_is(fs@, 4, "recording_time"@)
    &&& is_plain(fs@[4].layout, "<i8"@, 8)
    &&& field_is(fs@, 5, "run_id"@)
    &&& is_plain(fs@[5].layout, "<u4"@, 4)
}

/// The layout of a `RebootSeed` record whose edge array has `edges_len`
/// bytes and whose generator array has `rng_len`.
pub open spec fn is_reboot_seed_layout(l: RecordLayout, edges_len: usize, rng_len: usize) -> bool {
    &&& l matches RecordLayout::Record(fs)
    &&& fs@.len() == 2
    &&& field_is(fs@, 0, "last_state"@)
    &&& fs@[0].layout matches RecordLayout::Record(ls)
    &&& ls@.len() == 4
    &&& field_is(ls@, 0, "edges"@)
    &&& is_byte_array(ls@[0].layout, seq![edges_len])
    &&& field_is(ls@, 1, "rng_gen"@)
    &&& is_byte_array(ls@[1].layout, seq![rng_len])
    &&& field_is(ls@, 2, "performed_updates"@)
    &&& is_plain(ls@[2].layout, "<u8"@, 8)
    &&& field_is(ls@, 3, "accepted_updates"@)
    &&& is_plain(ls@[3].layout, "<u8"@, 8)
    &&& field_is(fs@, 1, "experiment_parameters"@)
    &&& is_experiment_parameters_layout(fs@[1].layout)
}

/// The layout of a backup record whose recorded data is the field
/// `data_name` (`backup_data` for a `BackUp`), with the given lengths of its
/// edge and generator arrays and shape of its recorded data.
pub open spec fn is_backup_layout(
    l: RecordLayout,
    data_name: Seq<char>,
    edges_len: usize,
    rng_len: usize,
    shape: Seq<usize>,
) -> bool {
    &&& l matches RecordLayout::Record(fs)
    &&& fs@.len() == 3
    &&& field_is(fs@, 0, "reboot_seed"@)
    &&& is_reboot_seed_layout(fs@[0].layout, edges_len, rng_len)
    &&& field_is(fs@, 1, data_name)
    &&& is_byte_array(fs@[1].layout, shape)
    &&& field_is(fs@, 2, "run_info"@)
    &&& is_run_info_layout(fs@[2].layout)
}

pub(crate) fn plain(descr: &str, size: usize) -> (res: RecordLayout)
    ensures
        is_plain(res, descr@, size),
{
    RecordLayout::Plain(PlainType { descr: descr.to_owned(), size: Some(size) })
}

pub(crate) fn field(name: &str, layout: RecordLayout) -> (res: LayoutField)
    ensures
        res.name@ == name@,
        res.layout == layout,
{
    LayoutField { name: name.to_owned(), layout }
}

/// The layout of an `ExperimentParameters` record.
pub fn experiment_parameters_dtype() -> (res: RecordLayout)
    ensures
        is_experiment_parameters_layout(res),
{
    let mut fs: Vec<LayoutField> = Vec::new();
    fs.push(field("shape", RecordLayout::Array(4, Box::new(plain("<u4", 4)))));
    fs.push(field("z_order", plain("<u4", 4)));
    fs.push(field("beta", plain("<f4", 4)));
    fs.push(field("lambda", plain("<f4", 4)));
    fs.push(field("rng_seed", plain("<u8", 8)));
    RecordLayout::Record(fs)
}

/// The layout of a `RunInfo` record.
pub fn run_info_dtype() -> (res: RecordLayout)
    ensures
        is_run_info_layout(res),
{
    let mut fs: Vec<LayoutField> = Vec::new();
    fs.push(field("recordings", plain("<u4", 4)));
    fs.push(field("recording_skip", plain("<u4", 4)));
    fs.push(field("recordings_until_backup", plain("<u4", 4)));
    fs.push(field("backup_number", plain("<u4", 4)));
    fs.push(field("recording_time", plain("<i8", 8)));
    fs.push(field("run_id", plain("<u4", 4)));
    RecordLayout::Record(fs)
}

/// The layout of an array of bytes of the given shape.
pub fn array_dtype(shape: &[usize]) -> (res: RecordLayout)
    ensures
        is_byte_array(res, shape@),
{
    let mut dtype = plain("<u1", 1);
    let mut i: usize = shape.len();
    assert(shape@.subrange(i as int, shape@.len() as int) =~= Seq::<usize>::empty());
    while i > 0
        invariant
            0 <= i <= shape@.len(),
            is_byte_array(dtype, shape@.subrange(i as int, shape@.len() as int)),
        decreases i,
    {
        let ghost inner = dtype;
        dtype = RecordLayout::Array(shape[i - 1] as u64, Box::new(dtype));
        let ghost dims = shape@.subrange(i - 1, shape@.len() as int);
        assert(dims.drop_first() =~= shape@.subrange(i as int, shape@.len() as int));
        assert(dims[0] == shape@[i - 1]);
        i -= 1;
    }
    assert(shape@.subrange(0, shape@.len() as int) =~= shape@);
    dtype
}

/// The layout of the record of `reboot_seed`.
pub fn reboot_seed_dtype(reboot_seed: &RebootSeed) -> (res: RecordLayout)
    ensures
        is_reboot_seed_layout(
            res,
            reboot_seed.last_state.edges@.len() as usize,
            reboot_seed.last_state.rng_gen.rng_gen@.len() as usize,
        ),
{
    let edges_len = reboot_seed.last_state.edges.len();
    let rng_len = reboot_seed.last_state.rng_gen.rng_gen.len();
    let edges_shape = [edges_len];
    let rng_shape = [rng_len];
    assert(edges_shape@ =~= seq![edges_len]);
    assert(rng_shape@ =~= seq![rng_len]);
    let mut last_state: Vec<LayoutField> = Vec::new();
    last_state.push(field("edges", array_dtype(&edges_shape)));
    last_state.push(field("rng_gen", array_dtype(&rng_shape)));
    last_state.push(field("performed_updates", plain("<u8", 8)));
    last_state.push(field("accepted_updates", plain("<u8", 8)));
    let mut fs: Vec<LayoutField> = Vec::new();
    fs.push(field("last_state", RecordLayout::Record(last_state)));
    fs.push(field("experiment_parameters", experiment_parameters_dtype()));
    RecordLayout::Record(fs)
}

/// The layout of a backup record of `reboot_seed`, recorded data of shape
/// `shape` in the field `data_name`, and run information.
pub fn data_record_dtype(reboot_seed: &RebootSeed, shape: &[usize], data_name: &str) -> (res: RecordLayout)
    ensures
        is_backup_layout(
            res,
            data_name@,
            reboot_seed.last_state.edges@.len() as usize,
            reboot_seed.last_state.rng_gen.rng_gen@.len() as usize,
            shape@,
        ),
{
    let mut fs: Vec<LayoutField> = Vec::new();
    fs.push(field("reboot_seed", reboot_seed_dtype(reboot_seed)));
    fs.push(field(data_name, array_dtype(shape)));
    fs.push(field("run_info", run_info_dtype()));
    RecordLayout::Record(fs)
}

/// The layout of the record of `backup`.
pub fn backup_dtype(backup: &BackUp) -> (res: RecordLayout)
    ensures
        is_backup_layout(
            res,
            "backup_data"@,
            backup.reboot_seed.last_state.edges@.len() as usize,
            backup.reboot_seed.last_state.rng_gen.rng_gen@.len() as usize,
            backup.backup_data.recorded_data.shape@,
        ),
{
    data_record_dtype(&backup.reboot_seed, backup.backup_data.recorded_data.shape.as_slice(), "backup_data")
}

/// The positions of the fields of `fs` named `a`, `b` or `c`, in order.
pub open spec fn named_positions(fs: Seq<LayoutField>, a: Seq<char>, b: Seq<char>, c: Seq<char>) -> Seq<int>
    decreases fs.len(),
{
    if fs.len() == 0 {
        Seq::empty()
    } else {
        let rest = named_positions(fs.drop_last(), a, b, c);
        let n = fs.last().name@;
        if n == a || n == b || n == c {
            rest.push(fs.len() - 1)
        } else {
            rest
        }
    }
}

pub open spec fn has_field(fs: Seq<LayoutField>, name: Seq<char>) -> bool {
    exists|i: int| 0 <= i < fs.len() && #[trigger] field_is(fs, i, name)
}

/// The lengths of the edge and generator arrays with which a `RebootSeed`
/// record of layout `l` is read: the sizes of the first two fields of the
/// `last_state` record. `None` where the layout cannot be read: it is no
/// record, lacks a `last_state` or an `experiment_parameters` field, its
/// `last_state` is no record of the four fields, the parameters do not
/// have their layout, a size is missing, or the generator has fewer than 16
/// bytes.
pub open spec fn reboot_seed_lengths(l: RecordLayout) -> Option<(usize, usize)> {
    match l {
        RecordLayout::Record(fs) => {
            let pos = named_positions(
                fs@,
                "last_state"@,
                "experiment_parameters"@,
                "experiment_parameters"@,
            );
            if pos.len() < 2 {
                None
            } else {
                match fs@[pos[0]].layout {
                    RecordLayout::Record(lfs) => {
                        if has_field(lfs@, "edges"@) && has_field(lfs@, "rng_gen"@) && has_field(
                            lfs@,
                            "performed_updates"@,
                        ) && has_field(lfs@, "accepted_updates"@) && lfs@.len() >= 2
                            && is_experiment_parameters_layout(fs@[pos[1]].layout) {
                            match (layout_num_bytes(lfs@[0].layout), layout_num_bytes(lfs@[1].layout)) {
                                (Some(e), Some(r)) => if 16 <= r <= usize::MAX && e <= usize::MAX {
                                    Some((e as usize, r as usize))
                                } else {
                                    None
                                },
                                _ => None,
                            }
                        } else {
                            None
                        }
                    },
                    _ => None,
                }
            }
        },
        _ => None,
    }
}

/// The lengths of the nested arrays at the top of `l`, outermost first.
pub open spec fn dims_of(l: RecordLayout) -> Seq<usize>
    decreases l,
{
    match l {
        RecordLayout::Array(n, inner) => seq![n as usize] + dims_of(*inner),
        _ => Seq::empty(),
    }
}

/// The lengths of the edge and generator arrays and the shape of the
/// recorded data with which a backup record of layout `l`, its recorded data
/// in the field `data_name`, is read. `None` where it cannot be read: it is
/// no record, lacks one of the fields `reboot_seed`, `data_name`,
/// `run_info`, the reboot seed cannot be read,
/// the parts' sizes are not those of their contents, the data's element
/// count does not fit in a `usize`, or the run information does not have its
/// layout.
pub open spec fn backup_lengths(l: RecordLayout, data_name: Seq<char>) -> Option<(usize, usize, Seq<usize>)> {
    match l {
        RecordLayout::Record(fs) => {
            let pos = named_positions(fs@, "reboot_seed"@, data_name, "run_info"@);
            if pos.len() < 3 {
                None
            } else {
                let rs = fs@[pos[0]].layout;
                let bd = fs@[pos[1]].layout;
                let dims = dims_of(bd);
                match reboot_seed_lengths(rs) {
                    Some((e, r)) => if layout_num_bytes(rs) == Some(reboot_seed_len(e as int, r as int) as nat)
                        && prefix_products_fit(dims) && layout_num_bytes(bd) == Some(
                        shape_product(dims) as nat,
                    ) && is_run_info_layout(fs@[pos[2]].layout) {
                        Some((e, r, dims))
                    } else {
                        None
                    },
                    None => None,
                }
            }
        },
        _ => None,
    }
}

fn named_positions_exec(fs: &Vec<LayoutField>, a: &String, b: &String, c: &String) -> (res: Vec<usize>)
    ensures
        res@.len() == named_positions(fs@, a@, b@, c@).len(),
        forall|i: int| 0 <= i < res@.len() ==> res@[i] == #[trigger] named_positions(fs@, a@, b@, c@)[i],
{
    let mut res: Vec<usize> = Vec::new();
    let mut i: usize = 0;
    assert(fs@.take(0) =~= Seq::<LayoutField>::empty());
    while i < fs.len()
        invariant
            0 <= i <= fs@.len(),
            res@.len() == named_positions(fs@.take(i as int), a@, b@, c@).len(),
            forall|k: int|
                0 <= k < res@.len() ==> res@[k] == #[trigger] named_positions(fs@.take(i as int), a@, b@, c@)[k],
        decreases fs@.len() - i,
    {
        assert(fs@.take(i + 1).drop_last() =~= fs@.take(i as int));
        if fs[i].name == *a || fs[i].name == *b || fs[i].name == *c {
            res.push(i);
        }
        i += 1;
    }
    assert(fs@.take(fs@.len() as int) =~= fs@);
    res
}

fn has_field_exec(fs: &Vec<LayoutField>, name: &String) -> (res: bool)
    ensures
        res == has_field(fs@, name@),
{
    let mut i: usize = 0;
    while i < fs.len()
        invariant
            0 <= i <= fs@.len(),
            forall|k: int| 0 <= k < i ==> !#[trigger] field_is(fs@, k, name@),
        decreases fs@.len() - i,
    {
        if fs[i].name == *name {
            assert(field_is(fs@, i as int, name@));
            return true;
        }
        i += 1;
    }
    false
}

fn is_plain_exec(l: &RecordLayout, descr: &str, size: usize) -> (res: bool)
    ensures
        res == is_plain(*l, descr@, size),
{
    match l {
        RecordLayout::Plain(t) => {
            let d = descr.to_owned();
            t.descr == d && match t.size {
                Some(s) => s == size,
                None => false,
            }
        },
        _ => false,
    }
}

fn is_field_exec(fs: &Vec<LayoutField>, i: usize, name: &str) -> (res: bool)
    requires
        i < fs@.len(),
    ensures
        res == field_is(fs@, i as int, name@),
{
    let n = name.to_owned();
    fs[i].name == n
}

fn is_experiment_parameters_layout_exec(l: &RecordLayout) -> (res: bool)
    ensures
        res == is_experiment_parameters_layout(*l),
{
    match l {
        RecordLayout::Record(fs) => {
            if fs.len() != 5 {
                return false;
            }
            let shape_ok = match &fs[0].layout {
                RecordLayout::Array(n, inner) => *n == 4 && is_plain_exec(inner, "<u4", 4),
                _ => false,
            };
            shape_ok && is_field_exec(fs, 0, "shape") && is_field_exec(fs, 1, "z_order") && is_plain_exec(
                &fs[1].layout,
                "<u4",
                4,
            ) && is_field_exec(fs, 2, "beta") && is_plain_exec(&fs[2].layout, "<f4", 4) && is_field_exec(
                fs,
                3,
                "lambda",
            ) && is_plain_exec(&fs[3].layout, "<f4", 4) && is_field_exec(fs, 4, "rng_seed") && is_plain_exec(
                &fs[4].layout,
                "<u8",
                8,
            )
        },
        _ => false,
    }
}

fn is_run_info_layout_exec(l: &RecordLayout) -> (res: bool)
    ensures
        res == is_run_info_layout(*l),
{
    match l {
        RecordLayout::Record(fs) => {
            if fs.len() != 6 {
                return false;
            }
            is_field_exec(fs, 0, "recordings") && is_plain_exec(&fs[0].layout, "<u4", 4) && is_field_exec(
                fs,
                1,
                "recording_skip",
            ) && is_plain_exec(&fs[1].layout, "<u4", 4) && is_field_exec(fs, 2, "recordings_until_backup")
                && is_plain_exec(&fs[2].layout, "<u4", 4) && is_field_exec(fs, 3, "backup_number")
                && is_plain_exec(&fs[3].layout, "<u4", 4) && is_field_exec(fs, 4, "recording_time")
                && is_plain_exec(&fs[4].layout, "<i8", 8) && is_field_exec(fs, 5, "run_id") && is_plain_exec(
                &fs[5].layout,
                "<u4",
                4,
            )
        },
        _ => false,
    }
}

/// The lengths with which a `RebootSeed` record of layout `l` is read (see
/// `reboot_seed_lengths`).
pub fn reboot_seed_lengths_of(l: &RecordLayout) -> (res: Option<(usize, usize)>)
    ensures
        res == reboot_seed_lengths(*l),
{
    match l {
        RecordLayout::Record(fs) => {
            let a = "last_state".to_owned();
            let b = "experiment_parameters".to_owned();
            let pos = named_positions_exec(fs, &a, &b, &b);
            if pos.len() < 2 {
                return None;
            }
            let ghost sp = named_positions(fs@, a@, b@, b@);
            assert(pos@[0] == sp[0] && pos@[1] == sp[1]);
            proof {
                lemma_named_positions_in_range(fs@, a@, b@, b@);
            }
            match &fs[pos[0]].layout {
                RecordLayout::Record(lfs) => {
                    let names_ok = has_field_exec(lfs, &"edges".to_owned()) && has_field_exec(
                        lfs,
                        &"rng_gen".to_owned(),
                    ) && has_field_exec(lfs, &"performed_updates".to_owned()) && has_field_exec(
                        lfs,
                        &"accepted_updates".to_owned(),
                    );
                    if !names_ok || lfs.len() < 2 || !is_experiment_parameters_layout_exec(&fs[pos[1]].layout) {
                        return None;
                    }
                    match (lfs[0].layout.num_bytes(), lfs[1].layout.num_bytes()) {
                        (Some(e), Some(r)) => if r >= 16 {
                            Some((e, r))
                        } else {
                            None
                        },
                        _ => None,
                    }
                },
                _ => None,
            }
        },
        _ => None,
    }
}

proof fn lemma_named_positions_in_range(fs: Seq<LayoutField>, a: Seq<char>, b: Seq<char>, c: Seq<char>)
    ensures
        forall|i: int|
            0 <= i < named_positions(fs, a, b, c).len() ==> 0 <= #[trigger] named_positions(fs, a, b, c)[i]
                < fs.len(),
    decreases fs.len(),
{
    if fs.len() > 0 {
        lemma_named_positions_in_range(fs.drop_last(), a, b, c);
        let rest = named_positions(fs.drop_last(), a, b, c);
        let all = named_positions(fs, a, b, c);
        assert forall|i: int| 0 <= i < all.len() implies 0 <= #[trigger] all[i] < fs.len() by {
            if i < rest.len() {
                assert(all[i] == rest[i]);
            }
        }
    }
}

/// Appends to `shape` the lengths of the nested arrays at the top of
/// `dtype`, outermost first.
pub fn shape_recursion(dtype: &RecordLayout, shape: &mut Vec<usize>)
    ensures
        final(shape)@ == old(shape)@ + dims_of(*dtype),
    decreases dtype,
{
    match dtype {
        RecordLayout::Array(len, inner) => {
            shape.push(*len as usize);
            shape_recursion(inner, shape);
            assert(final(shape)@ =~= old(shape)@ + dims_of(*dtype));
        },
        _ => {
            assert(old(shape)@ + dims_of(*dtype) =~= old(shape)@);
        },
    }
}

/// Whether every running product of `shape`, taken from the front, fits in
/// a `usize`.
pub fn products_fit(shape: &Vec<usize>) -> (res: bool)
    ensures
        res == prefix_products_fit(shape@),
{
    let mut acc: usize = 1;
    let mut i: usize = 0;
    assert(shape@.take(0) =~= Seq::<usize>::empty());
    while i < shape.len()
        invariant
            0 <= i <= shape@.len(),
            acc == shape_product(shape@.take(i as int)),
            forall|k: int| 0 <= k <= i ==> #[trigger] shape_product(shape@.take(k)) <= usize::MAX,
        decreases shape@.len() - i,
    {
        assert(shape@.take(i + 1).drop_last() =~= shape@.take(i as int));
        match acc.checked_mul(shape[i]) {
            Some(p) => {
                acc = p;
            },
            None => {
                assert(shape_product(shape@.take(i + 1)) > usize::MAX);
                return false;
            },
        }
        i += 1;
    }
    assert(shape@.take(shape@.len() as int) =~= shape@);
    true
}

/// The lengths with which a `BackUp` record of layout `l` is read (see
/// `backup_lengths`).
pub fn backup_lengths_of(l: &RecordLayout, data_name: &str) -> (res: Option<(usize, usize, Vec<usize>)>)
    ensures
        match backup_lengths(*l, data_name@) {
            None => res is None,
            Some((e, r, dims)) => res matches Some((e2, r2, d2)) && e2 == e && r2 == r && d2@ == dims,
        },
{
    match l {
        RecordLayout::Record(fs) => {
            let a = "reboot_seed".to_owned();
            let b = data_name.to_owned();
            let c = "run_info".to_owned();
            let pos = named_positions_exec(fs, &a, &b, &c);
            if pos.len() < 3 {
                return None;
            }
            proof {
                lemma_named_positions_in_range(fs@, a@, b@, c@);
            }
            let ghost sp = named_positions(fs@, a@, b@, c@);
            assert(pos@[0] == sp[0] && pos@[1] == sp[1] && pos@[2] == sp[2]);
            let rs = &fs[pos[0]].layout;
            let bd = &fs[pos[1]].layout;
            let (e, r) = match reboot_seed_lengths_of(rs) {
                Some(p) => p,
                None => {
                    return None;
                },
            };
            let mut dims: Vec<usize> = Vec::new();
            shape_recursion(bd, &mut dims);
            assert(dims@ =~= dims_of(*bd));
            if !products_fit(&dims) {
                return None;
            }
            let count = shape_to_length(dims.as_slice());
            let seed_ok = match rs.num_bytes() {
                Some(n) => e <= usize::MAX - r && e + r <= usize::MAX - 52 && n == e + r + 52,
                None => false,
            };
            let data_ok = match bd.num_bytes() {
                Some(n) => n == count,
                None => false,
            };
            if seed_ok && data_ok && is_run_info_layout_exec(&fs[pos[2]].layout) {
                Some((e, r, dims))
            } else {
                None
            }
        },
        _ => None,
    }
}

/// The layout of a byte array of shape `dims` (as `array_dtype` builds it)
/// reads back as that shape, and its size is the element count, when the
/// non-zero lengths multiply to at most `usize::MAX` (else the size
/// overflows on the way).
pub proof fn law_byte_array_layout(l: RecordLayout, dims: Seq<usize>)
    requires
        is_byte_array(l, dims),
        nonzero_product(dims) <= usize::MAX,
    ensures
        layout_num_bytes(l) == Some(shape_product(dims) as nat),
        dims_of(l) == dims,
        prefix_products_fit(dims),
    decreases dims.len(),
{
    lemma_products_fit(dims);
    lemma_product_bounded(dims);
    if dims.len() == 0 {
        assert(dims_of(l) =~= dims);
    } else {
        let rest = dims.drop_first();
        lemma_products_front(dims);
        lemma_nonzero_product_pos(rest);
        let f = if dims[0] == 0 { 1int } else { dims[0] as int };
        assert(nonzero_product(rest) <= nonzero_product(dims)) by (nonlinear_arith)
            requires
                nonzero_product(dims) == f * nonzero_product(rest),
                f >= 1,
                nonzero_product(rest) >= 1,
        ;
        match l {
            RecordLayout::Array(n, inner) => {
                law_byte_array_layout(*inner, rest);
                lemma_product_bounded(rest);
                assert(dims_of(l) =~= seq![n as usize] + dims_of(*inner));
                assert(dims_of(l) =~= dims);
                let b = shape_product(rest);
                let x = dims[0] as int;
                assert(b * x == x * b) by (nonlinear_arith);
                assert(n as nat == dims[0]);
                assert(layout_num_bytes(*inner) == Some(b as nat));
            },
            _ => {},
        }
    }
}

proof fn lemma_experiment_parameters_bytes(l: RecordLayout)
    requires
        is_experiment_parameters_layout(l),
    ensures
        layout_num_bytes(l) == Some(36nat),
{
    match l {
        RecordLayout::Record(fs) => {
            match fs@[0].layout {
                RecordLayout::Array(_, inner) => {
                    assert(layout_num_bytes(*inner) == Some(4nat));
                },
                _ => {},
            }
            assert(layout_num_bytes(fs@[0].layout) == Some(16nat));
            assert(layout_num_bytes(fs@[1].layout) == Some(4nat));
            assert(layout_num_bytes(fs@[2].layout) == Some(4nat));
            assert(layout_num_bytes(fs@[3].layout) == Some(4nat));
            assert(layout_num_bytes(fs@[4].layout) == Some(8nat));
            assert(fields_num_bytes(fs, 0) == Some(0nat));
            assert(fields_num_bytes(fs, 1) == Some(16nat));
            assert(fields_num_bytes(fs, 2) == Some(20nat));
            assert(fields_num_bytes(fs, 3) == Some(24nat));
            assert(fields_num_bytes(fs, 4) == Some(28nat));
            assert(fields_num_bytes(fs, 5) == Some(36nat));
        },
        _ => {},
    }
}

proof fn lemma_run_info_bytes(l: RecordLayout)
    requires
        is_run_info_layout(l),
    ensures
        layout_num_bytes(l) == Some(28nat),
{
    match l {
        RecordLayout::Record(fs) => {
            assert(layout_num_bytes(fs@[0].layout) == Some(4nat));
            assert(layout_num_bytes(fs@[1].layout) == Some(4nat));
            assert(layout_num_bytes(fs@[2].layout) == Some(4nat));
            assert(layout_num_bytes(fs@[3].layout) == Some(4nat));
            assert(layout_num_bytes(fs@[4].layout) == Some(8nat));
            assert(layout_num_bytes(fs@[5].layout) == Some(4nat));
            assert(fields_num_bytes(fs, 0) == Some(0nat));
            assert(fields_num_bytes(fs, 1) == Some(4nat));
            assert(fields_num_bytes(fs, 2) == Some(8nat));
            assert(fields_num_bytes(fs, 3) == Some(12nat));
            assert(fields_num_bytes(fs, 4) == Some(16nat));
            assert(fields_num_bytes(fs, 5) == Some(24nat));
            assert(fields_num_bytes(fs, 6) == Some(28nat));
        },
        _ => {},
    }
}

proof fn lemma_one_dim_array(l: RecordLayout, n: usize)
    requires
        is_byte_array(l, seq![n]),
    ensures
        layout_num_bytes(l) == Some(n as nat),
{
    let d = seq![n];
    assert(d.drop_last() =~= Seq::<usize>::empty());
    assert(nonzero_product(Seq::<usize>::empty()) == 1);
    assert(shape_product(Seq::<usize>::empty()) == 1);
    assert(nonzero_product(d) <= usize::MAX);
    assert(shape_product(d) == n);
    law_byte_array_layout(l, d);
}

/// A reboot-seed layout has the size of its record, and is read with the
/// lengths it was built with.
proof fn lemma_reboot_seed_layout(l: RecordLayout, e: usize, r: usize)
    requires
        is_reboot_seed_layout(l, e, r),
        e + r + 52 <= usize::MAX,
        r >= 16,
    ensures
        layout_num_bytes(l) == Some((e + r + 52) as nat),
        reboot_seed_lengths(l) == Some((e, r)),
{
    reveal_strlit("last_state");
    reveal_strlit("experiment_parameters");
    reveal_strlit("edges");
    reveal_strlit("rng_gen");
    reveal_strlit("performed_updates");
    reveal_strlit("accepted_updates");
    match l {
        RecordLayout::Record(fs) => {
            lemma_experiment_parameters_bytes(fs@[1].layout);
            match fs@[0].layout {
                RecordLayout::Record(ls) => {
                    lemma_one_dim_array(ls@[0].layout, e);
                    lemma_one_dim_array(ls@[1].layout, r);
                    assert(layout_num_bytes(ls@[2].layout) == Some(8nat));
                    assert(layout_num_bytes(ls@[3].layout) == Some(8nat));
                    assert(fields_num_bytes(ls, 0) == Some(0nat));
                    assert(fields_num_bytes(ls, 1) == Some(e as nat));
                    assert(fields_num_bytes(ls, 2) == Some((e + r) as nat));
                    assert(fields_num_bytes(ls, 3) == Some((e + r + 8) as nat));
                    assert(fields_num_bytes(ls, 4) == Some((e + r + 16) as nat));
                    assert(layout_num_bytes(fs@[0].layout) == Some((e + r + 16) as nat));
                    assert(fields_num_bytes(fs, 0) == Some(0nat));
                    assert(fields_num_bytes(fs, 1) == Some((e + r + 16) as nat));
                    assert(fields_num_bytes(fs, 2) == Some((e + r + 52) as nat));
                    assert(field_is(ls@, 0, "edges"@));
                    assert(field_is(ls@, 1, "rng_gen"@));
                    assert(field_is(ls@, 2, "performed_updates"@));
                    assert(field_is(ls@, 3, "accepted_updates"@));
                    let a = "last_state"@;
                    let b = "experiment_parameters"@;
                    assert(a.len() == 10 && b.len() == 21);
                    assert(a != b);
                    assert(fs@.drop_last().drop_last() =~= Seq::<LayoutField>::empty());
                    assert(named_positions(fs@.drop_last().drop_last(), a, b, b) =~= Seq::<int>::empty());
                    assert(named_positions(fs@.drop_last(), a, b, b) =~= seq![0int]);
                    assert(named_positions(fs@, a, b, b) =~= seq![0int, 1int]);
                },
                _ => {},
            }
        },
        _ => {},
    }
}

/// The layout that `backup_dtype` (or `data_record_dtype`, with another
/// name for the data field) builds for a backup has the size of the
/// backup's record as `BackupWriter` writes it, and a reader made from it
/// reads the record with the lengths of the backup's edge array, generator
/// state and recorded data (so `law_backup_roundtrip` applies). The record
/// puts each part at the offset of its field in the layout: the reboot seed
/// from 0, the recorded data (row-major) after it, the run information
/// last.
pub proof fn law_backup_layout_read_back(b: BackUp, data_name: Seq<char>, l: RecordLayout)
    requires
        data_name != "reboot_seed"@,
        data_name != "run_info"@,
        b.reboot_seed.last_state.rng_gen.wf(),
        b.backup_data.recorded_data.wf(),
        is_backup_layout(
            l,
            data_name,
            b.reboot_seed.last_state.edges@.len() as usize,
            16,
            b.backup_data.recorded_data.shape@,
        ),
        b.reboot_seed.last_state.edges@.len() + b.backup_data.recorded_data.data@.len() + 96 <= usize::MAX,
    ensures
        layout_num_bytes(l) == Some(backup_bytes(b).len()),
        backup_lengths(l, data_name) == Some(
            (b.reboot_seed.last_state.edges@.len() as usize, 16usize, b.backup_data.recorded_data.shape@),
        ),
        fields_num_bytes(l->Record_0, 1) == Some((b.reboot_seed.last_state.edges@.len() + 68) as nat),
        fields_num_bytes(l->Record_0, 2) == Some(
            (b.reboot_seed.last_state.edges@.len() + 68 + b.backup_data.recorded_data.data@.len()) as nat,
        ),
        backup_bytes(b).subrange(0, b.reboot_seed.last_state.edges@.len() + 68int) == reboot_seed_bytes(
            b.reboot_seed,
        ),
        backup_bytes(b).subrange(
            b.reboot_seed.last_state.edges@.len() + 68int,
            b.reboot_seed.last_state.edges@.len() + 68int + b.backup_data.recorded_data.data@.len(),
        ) == b.backup_data.recorded_data.data@,
        backup_bytes(b).subrange(
            b.reboot_seed.last_state.edges@.len() + 68int + b.backup_data.recorded_data.data@.len(),
            b.reboot_seed.last_state.edges@.len() + 96int + b.backup_data.recorded_data.data@.len(),
        ) == run_info_bytes(b.run_info),
{
    reveal_strlit("reboot_seed");
    reveal_strlit("run_info");
    let e = b.reboot_seed.last_state.edges@.len() as usize;
    let shape = b.backup_data.recorded_data.shape@;
    let n = b.backup_data.recorded_data.data@.len();
    crate::experiment::backup::deserializer::law_reboot_seed_roundtrip(
        b.reboot_seed,
        Seq::empty(),
        Seq::empty(),
    );
    assert(run_info_bytes(b.run_info).len() == 28) by {
        crate::measurements::backup::backup_fragments::law_run_info_roundtrip(
            b.run_info,
            Seq::empty(),
            Seq::empty(),
        );
    }
    match l {
        RecordLayout::Record(fs) => {
            lemma_reboot_seed_layout(fs@[0].layout, e, 16);
            lemma_run_info_bytes(fs@[2].layout);
            assert(nonzero_product(shape) <= usize::MAX);
            law_byte_array_layout(fs@[1].layout, shape);
            assert(layout_num_bytes(fs@[0].layout) == Some((e + 68) as nat));
            assert(layout_num_bytes(fs@[1].layout) == Some(n as nat));
            assert(layout_num_bytes(fs@[2].layout) == Some(28nat));
            assert(fields_num_bytes(fs, 0) == Some(0nat));
            assert(fields_num_bytes(fs, 1) == Some((e + 68) as nat));
            assert(fields_num_bytes(fs, 2) == Some((e + 68 + n) as nat));
            assert(fields_num_bytes(fs, 3) == Some((e + 96 + n) as nat));
            let a = "reboot_seed"@;
            let bd = data_name;
            let c = "run_info"@;
            assert(a.len() == 11 && c.len() == 8);
            assert(a != bd && a != c && bd != c);
            assert(fs@.drop_last().drop_last().drop_last() =~= Seq::<LayoutField>::empty());
            assert(named_positions(fs@.drop_last().drop_last().drop_last(), a, bd, c) =~= Seq::<int>::empty());
            assert(fs@.drop_last().drop_last().len() == 1);
            assert(named_positions(fs@.drop_last().drop_last(), a, bd, c) =~= seq![0int]);
            assert(named_positions(fs@.drop_last(), a, bd, c) =~= seq![0int, 1int]);
            assert(named_positions(fs@, a, bd, c) =~= seq![0int, 1int, 2int]);
            assert(reboot_seed_len(e as int, 16) == e + 68);
        },
        _ => {},
    }
    let bb = backup_bytes(b);
    let sb = reboot_seed_bytes(b.reboot_seed);
    let d = b.backup_data.recorded_data.data@;
    assert(sb.len() == e + 68);
    assert(bb.subrange(0, e + 68) =~= sb);
    assert(bb.subrange(e + 68, e + 68 + n) =~= d);
    assert(bb.subrange(e + 68 + n, e + 96 + n) =~= run_info_bytes(b.run_info));
}

/// The layout that `reboot_seed_dtype` builds for a seed has the size of the
/// record `RebootSeedWriter` writes for it, and the reader made from it reads
/// with the lengths of the seed's edge array and generator state, which give
/// the seed back from those bytes.
pub proof fn law_reboot_seed_layout_read_back(s: RebootSeed, l: RecordLayout)
    requires
        s.last_state.rng_gen.wf(),
        is_reboot_seed_layout(l, s.last_state.edges@.len() as usize, 16),
        s.last_state.edges@.len() + 68 <= usize::MAX,
    ensures
        layout_num_bytes(l) == Some(reboot_seed_bytes(s).len()),
        reboot_seed_lengths(l) == Some((s.last_state.edges@.len() as usize, 16usize)),
        crate::experiment::backup::deserializer::reboot_seed_at(
            reboot_seed_bytes(s),
            0,
            s.last_state.edges@.len() as int,
            16,
            s,
        ),
{
    crate::experiment::backup::deserializer::law_reboot_seed_roundtrip(s, Seq::empty(), Seq::empty());
    assert(Seq::<u8>::empty() + reboot_seed_bytes(s) + Seq::<u8>::empty() =~= reboot_seed_bytes(s));
    lemma_reboot_seed_layout(l, s.last_state.edges@.len() as usize, 16);
}

/// The bytes of an `ExperimentParameters` record put every field at the
/// offset that its field has in the record layout (fields `shape`,
/// `z_order`, `beta`, `lambda`, `rng_seed`, in that order): `shape` as four
/// little-endian `u32` from offset 0, `z_order` at 16, `beta` at 20, `lambda`
/// at 24 (`u32`), `rng_seed` at 28 (`u64`); and reading a record takes every
/// field from that offset.
pub proof fn law_experiment_parameters_field_offsets(l: RecordLayout, p: ExperimentParameters, b: Seq<u8>, i: int)
    requires
        is_experiment_parameters_layout(l),
    ensures
        fields_num_bytes(l->Record_0, 1) == Some(16nat),
        fields_num_bytes(l->Record_0, 2) == Some(20nat),
        fields_num_bytes(l->Record_0, 3) == Some(24nat),
        fields_num_bytes(l->Record_0, 4) == Some(28nat),
        layout_num_bytes(l) == Some(experiment_parameters_bytes(p).len()),
        experiment_parameters_bytes(p).subrange(0, 4) == le_bytes(p.shape[0] as nat, 4),
        experiment_parameters_bytes(p).subrange(4, 8) == le_bytes(p.shape[1] as nat, 4),
        experiment_parameters_bytes(p).subrange(8, 12) == le_bytes(p.shape[2] as nat, 4),
        experiment_parameters_bytes(p).subrange(12, 16) == le_bytes(p.shape[3] as nat, 4),
        experiment_parameters_bytes(p).subrange(16, 20) == le_bytes(p.z_order as nat, 4),
        experiment_parameters_bytes(p).subrange(20, 24) == le_bytes(p.beta_bits as nat, 4),
        experiment_parameters_bytes(p).subrange(24, 28) == le_bytes(p.lambda_bits as nat, 4),
        experiment_parameters_bytes(p).subrange(28, 36) == le_bytes(p.rng_seed as nat, 8),
        experiment_parameters_at(b, i).shape[0] == le_value(b.subrange(i, i + 4)) as u32,
        experiment_parameters_at(b, i).shape[1] == le_value(b.subrange(i + 4, i + 8)) as u32,
        experiment_parameters_at(b, i).shape[2] == le_value(b.subrange(i + 8, i + 12)) as u32,
        experiment_parameters_at(b, i).shape[3] == le_value(b.subrange(i + 12, i + 16)) as u32,
        experiment_parameters_at(b, i).z_order == le_value(b.subrange(i + 16, i + 20)) as u32,
        experiment_parameters_at(b, i).beta_bits == le_value(b.subrange(i + 20, i + 24)) as u32,
        experiment_parameters_at(b, i).lambda_bits == le_value(b.subrange(i + 24, i + 28)) as u32,
        experiment_parameters_at(b, i).rng_seed == le_value(b.subrange(i + 28, i + 36)) as u64,
{
    lemma_experiment_parameters_bytes(l);
    let fs = l->Record_0;
    match fs@[0].layout {
        RecordLayout::Array(_, inner) => {
            assert(layout_num_bytes(*inner) == Some(4nat));
        },
        _ => {},
    }
    assert(layout_num_bytes(fs@[0].layout) == Some(16nat));
    assert(layout_num_bytes(fs@[1].layout) == Some(4nat));
    assert(layout_num_bytes(fs@[2].layout) == Some(4nat));
    assert(layout_num_bytes(fs@[3].layout) == Some(4nat));
    assert(layout_num_bytes(fs@[4].layout) == Some(8nat));
    assert(fields_num_bytes(fs, 0) == Some(0nat));
    assert(fields_num_bytes(fs, 1) == Some(16nat));
    assert(fields_num_bytes(fs, 2) == Some(20nat));
    assert(fields_num_bytes(fs, 3) == Some(24nat));
    assert(fields_num_bytes(fs, 4) == Some(28nat));
    lemma_le_bytes_len(p.shape[0] as nat, 4);
    lemma_le_bytes_len(p.shape[1] as nat, 4);
    lemma_le_bytes_len(p.shape[2] as nat, 4);
    lemma_le_bytes_len(p.shape[3] as nat, 4);
    lemma_le_bytes_len(p.z_order as nat, 4);
    lemma_le_bytes_len(p.beta_bits as nat, 4);
    lemma_le_bytes_len(p.lambda_bits as nat, 4);
    lemma_le_bytes_len(p.rng_seed as nat, 8);
    let e = experiment_parameters_bytes(p);
    assert(e.len() == 36);
    assert(e.subrange(0, 4) =~= le_bytes(p.shape[0] as nat, 4));
    assert(e.subrange(4, 8) =~= le_bytes(p.shape[1] as nat, 4));
    assert(e.subrange(8, 12) =~= le_bytes(p.shape[2] as nat, 4));
    assert(e.subrange(12, 16) =~= le_bytes(p.shape[3] as nat, 4));
    assert(e.subrange(16, 20) =~= le_bytes(p.z_order as nat, 4));
    assert(e.subrange(20, 24) =~= le_bytes(p.beta_bits as nat, 4));
    assert(e.subrange(24, 28) =~= le_bytes(p.lambda_bits as nat, 4));
    assert(e.subrange(28, 36) =~= le_bytes(p.rng_seed as nat, 8));
}

/// The bytes of a `RunInfo` record put every field at the offset that its
/// field has in the record layout (fields `recordings`, `recording_skip`,
/// `recordings_until_backup`, `backup_number`, `recording_time`, `run_id`,
/// in that order): the four counts as little-endian `u32` at 0, 4, 8 and 12,
/// `recording_time` at 16 (`i64`, two's complement), `run_id` at 24 (`u32`);
/// and reading a record takes every field from that offset.
pub proof fn law_run_info_field_offsets(l: RecordLayout, r: RunInfo, b: Seq<u8>, i: int)
    requires
        is_run_info_layout(l),
    ensures
        fields_num_bytes(l->Record_0, 1) == Some(4nat),
        fields_num_bytes(l->Record_0, 2) == Some(8nat),
        fields_num_bytes(l->Record_0, 3) == Some(12nat),
        fields_num_bytes(l->Record_0, 4) == Some(16nat),
        fields_num_bytes(l->Record_0, 5) == Some(24nat),
        layout_num_bytes(l) == Some(run_info_bytes(r).len()),
        run_info_bytes(r).subrange(0, 4) == le_bytes(r.recordings as nat, 4),
        run_info_bytes(r).subrange(4, 8) == le_bytes(r.recording_skip as nat, 4),
        run_info_bytes(r).subrange(8, 12) == le_bytes(r.recordings_until_backup as nat, 4),
        run_info_bytes(r).subrange(12, 16) == le_bytes(r.backup_number as nat, 4),
        run_info_bytes(r).subrange(16, 24) == le_bytes((r.recording_time as u64) as nat, 8),
        run_info_bytes(r).subrange(24, 28) == le_bytes(r.run_id as nat, 4),
        run_info_at(b, i).recordings == le_value(b.subrange(i, i + 4)) as u32,
        run_info_at(b, i).recording_skip == le_value(b.subrange(i + 4, i + 8)) as u32,
        run_info_at(b, i).recordings_until_backup == le_value(b.subrange(i + 8, i + 12)) as u32,
        run_info_at(b, i).backup_number == le_value(b.subrange(i + 12, i + 16)) as u32,
        run_info_at(b, i).recording_time == (le_value(b.subrange(i + 16, i + 24)) as u64) as i64,
        run_info_at(b, i).run_id == le_value(b.subrange(i + 24, i + 28)) as u32,
{
    lemma_run_info_bytes(l);
    let fs = l->Record_0;
    assert(layout_num_bytes(fs@[0].layout) == Some(4nat));
    assert(layout_num_bytes(fs@[1].layout) == Some(4nat));
    assert(layout_num_bytes(fs@[2].layout) == Some(4nat));
    assert(layout_num_bytes(fs@[3].layout) == Some(4nat));
    assert(layout_num_bytes(fs@[4].layout) == Some(8nat));
    assert(layout_num_bytes(fs@[5].layout) == Some(4nat));
    assert(fields_num_bytes(fs, 0) == Some(0nat));
    assert(fields_num_bytes(fs, 1) == Some(4nat));
    assert(fields_num_bytes(fs, 2) == Some(8nat));
    assert(fields_num_bytes(fs, 3) == Some(12nat));
    assert(fields_num_bytes(fs, 4) == Some(16nat));
    assert(fields_num_bytes(fs, 5) == Some(24nat));
    lemma_le_bytes_len(r.recordings as nat, 4);
    lemma_le_bytes_len(r.recording_skip as nat, 4);
    lemma_le_bytes_len(r.recordings_until_backup as nat, 4);
    lemma_le_bytes_len(r.backup_number as nat, 4);
    lemma_le_bytes_len((r.recording_time as u64) as nat, 8);
    lemma_le_bytes_len(r.run_id as nat, 4);
    let e = run_info_bytes(r);
    assert(e.len() == 28);
    assert(e.subrange(0, 4) =~= le_bytes(r.recordings as nat, 4));
    assert(e.subrange(4, 8) =~= le_bytes(r.recording_skip as nat, 4));
    assert(e.subrange(8, 12) =~= le_bytes(r.recordings_until_backup as nat, 4));
    assert(e.subrange(12, 16) =~= le_bytes(r.backup_number as nat, 4));
    assert(e.subrange(16, 24) =~= le_bytes((r.recording_time as u64) as nat, 8));
    assert(e.subrange(24, 28) =~= le_bytes(r.run_id as nat, 4));
}

/// The bytes of a `RebootSeed` record put every part at the offset that its
/// field has in the record layout (`last_state` with `edges`, `rng_gen`,
/// `performed_updates`, `accepted_updates`, then `experiment_parameters`):
/// the edge phases from 0, the generator state from `e`, the performed and
/// the accepted update counts (little-endian `u64`) at `e + r` and
/// `e + r + 8`, the parameters at `e + r + 16`; and reading a record takes
/// every part from that offset.
pub proof fn law_reboot_seed_field_offsets(
    l: RecordLayout,
    s: RebootSeed,
    e: usize,
    r: usize,
    b: Seq<u8>,
    start: int,
    x: RebootSeed,
)
    requires
        is_reboot_seed_layout(l, e, r),
        e + r + 52 <= usize::MAX,
    ensures
        fields_num_bytes(l->Record_0@[0].layout->Record_0, 1) == Some(e as nat),
        fields_num_bytes(l->Record_0@[0].layout->Record_0, 2) == Some((e + r) as nat),
        fields_num_bytes(l->Record_0@[0].layout->Record_0, 3) == Some((e + r + 8) as nat),
        fields_num_bytes(l->Record_0, 1) == Some((e + r + 16) as nat),
        s.last_state.edges@.len() == e && s.last_state.rng_gen.rng_gen@.len() == r ==> {
            let bytes = reboot_seed_bytes(s);
            &&& bytes.subrange(0, e as int) == s.last_state.edges@
            &&& bytes.subrange(e as int, e + r) == s.last_state.rng_gen.rng_gen@
            &&& bytes.subrange(e + r, e + r + 8) == le_bytes(s.last_state.performed_updates as nat, 8)
            &&& bytes.subrange(e + r + 8, e + r + 16) == le_bytes(s.last_state.accepted_updates as nat, 8)
            &&& bytes.subrange(e + r + 16, e + r + 52) == experiment_parameters_bytes(s.experiment_parameters)
        },
        reboot_seed_at(b, start, e as int, r as int, x) ==> {
            &&& x.last_state.edges@ == b.subrange(start, start + e)
            &&& x.last_state.rng_gen.rng_gen@ == b.subrange(start + e, start + e + 16)
            &&& x.last_state.performed_updates == le_value(b.subrange(start + e + r, start + e + r + 8)) as u64
            &&& x.last_state.accepted_updates == le_value(b.subrange(start + e + r + 8, start + e + r + 16)) as u64
            &&& x.experiment_parameters == experiment_parameters_at(b, start + e + r + 16)
        },
{
    match l {
        RecordLayout::Record(fs) => {
            lemma_experiment_parameters_bytes(fs@[1].layout);
            match fs@[0].layout {
                RecordLayout::Record(ls) => {
                    lemma_one_dim_array(ls@[0].layout, e);
                    lemma_one_dim_array(ls@[1].layout, r);
                    assert(layout_num_bytes(ls@[2].layout) == Some(8nat));
                    assert(layout_num_bytes(ls@[3].layout) == Some(8nat));
                    assert(fields_num_bytes(ls, 0) == Some(0nat));
                    assert(fields_num_bytes(ls, 1) == Some(e as nat));
                    assert(fields_num_bytes(ls, 2) == Some((e + r) as nat));
                    assert(fields_num_bytes(ls, 3) == Some((e + r + 8) as nat));
                    assert(fields_num_bytes(ls, 4) == Some((e + r + 16) as nat));
                    assert(layout_num_bytes(fs@[0].layout) == Some((e + r + 16) as nat));
                    assert(fields_num_bytes(fs, 0) == Some(0nat));
                    assert(fields_num_bytes(fs, 1) == Some((e + r + 16) as nat));
                },
                _ => {},
            }
        },
        _ => {},
    }
    if s.last_state.edges@.len() == e && s.last_state.rng_gen.rng_gen@.len() == r {
        let st = s.last_state;
        lemma_le_bytes_len(st.performed_updates as nat, 8);
        lemma_le_bytes_len(st.accepted_updates as nat, 8);
        crate::measurements::backup::backup_fragments::law_experiment_parameters_roundtrip(
            s.experiment_parameters,
            Seq::empty(),
            Seq::empty(),
        );
        let bytes = reboot_seed_bytes(s);
        let pb = le_bytes(st.performed_updates as nat, 8);
        let ab = le_bytes(st.accepted_updates as nat, 8);
        let eb = experiment_parameters_bytes(s.experiment_parameters);
        assert(bytes =~= st.edges@ + st.rng_gen.rng_gen@ + pb + ab + eb);
        assert(bytes.subrange(0, e as int) =~= st.edges@);
        assert(bytes.subrange(e as int, e + r) =~= st.rng_gen.rng_gen@);
        assert(bytes.subrange(e + r, e + r + 8) =~= pb);
        assert(bytes.subrange(e + r + 8, e + r + 16) =~= ab);
        assert(bytes.subrange(e + r + 16, e + r + 52) =~= eb);
    }
}

} // verus!
