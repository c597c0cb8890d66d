//! The random number generator of an experiment, a `Pcg64Mcg`, held as the
//! 16 bytes that `bincode` writes for it (its 128-bit state, little endian).
use vstd::prelude::*;

use rand::{Rng, SeedableRng};

use crate::experiment::backup::layout::{array_dtype, field, field_is, is_byte_array, LayoutField, RecordLayout};
use rand_pcg::Pcg64Mcg;

verus! {

/// The `bincode` serialization of `Pcg64Mcg::seed_from_u64(seed)`.
pub uninterp spec fn pcg64mcg_seeded_bytes(seed: u64) -> Seq<u8>;

/// For the generator whose `bincode` serialization is `state`: the value
/// that `gen_range(0..bound)` draws and the serialization of the generator
/// afterwards.
pub uninterp spec fn pcg64mcg_gen_range(state: Seq<u8>, bound: u64) -> (u64, Seq<u8>);

/// Calls `Pcg64Mcg::seed_from_u64` (rand_core's default, which fills the
/// seed and goes through `from_seed`), then `bincode::serialize`. The
/// generator's only field is a `u128`, which bincode writes as 16 bytes; the
/// bytes themselves are named, not stated.
#[verifier::external_body]
fn pcg_seeded_bytes(seed: u64) -> (res: Vec<u8>)
    ensures
        res@ == pcg64mcg_seeded_bytes(seed),
        res@.len() == 16,
{
    bincode::serialize(&Pcg64Mcg::seed_from_u64(seed)).unwrap()
}

/// Calls `bincode::deserialize` on the 16 state bytes, `Rng::gen_range(0..bound)`
/// (a `u64` draw, taken with `next_u64` on every target)
/// on the generator, and `bincode::serialize` on the advanced generator. The
/// draw lies in `0..bound` (rand's documented range); the draw and the new
/// state are named, as a function of the state and the bound alone.
#[verifier::external_body]
fn pcg_gen_range(state: &Vec<u8>, bound: u64) -> (res: (u64, Vec<u8>))
    requires
        state@.len() == 16,
        bound > 0,
    ensures
        (res.0, res.1@) == pcg64mcg_gen_range(state@, bound),
        res.0 < bound,
        res.1@.len() == 16,
{
    let mut rng: Pcg64Mcg = bincode::deserialize(state).unwrap();
    let value = rng.gen_range(0..bound);
    (value, bincode::serialize(&rng).unwrap())
}

/// Calls `bincode::deserialize::<Pcg64Mcg>` on `bytes` and, on success,
/// `bincode::serialize` on the result. bincode reads the state as a
/// little-endian `u128` from the first 16 bytes, fails on fewer, and ignores
/// trailing bytes; writing it back gives those 16 bytes.
#[verifier::external_body]
fn pcg_reserialize(bytes: &[u8]) -> (res: Option<Vec<u8>>)
    ensures
        res is Some <==> bytes@.len() >= 16,
        res matches Some(v) ==> v@ == bytes@.subrange(0, 16),
{
    match bincode::deserialize::<Pcg64Mcg>(bytes) {
        Ok(rng) => Some(bincode::serialize(&rng).unwrap()),
        Err(_) => None,
    }
}

/// The generator of an experiment, held as its 16 serialized state bytes.
#[derive(Clone, Debug, PartialEq, Eq)]
pub struct RngGenWrapper {
    pub rng_gen: Vec<u8>,
}

impl RngGenWrapper {
    pub open spec fn wf(&self) -> bool {
        self.rng_gen@.len() == 16
    }

    /// The layout of the record of a generator: one field, `rng_gen_wrapper`,
    /// an array of its state bytes.
    pub fn generate_dtype(&self) -> (res: RecordLayout)
        ensures
            res matches RecordLayout::Record(fs) && fs@.len() == 1 && field_is(fs@, 0, "rng_gen_wrapper"@)
                && is_byte_array(fs@[0].layout, seq![self.rng_gen@.len() as usize]),
    {
        let shape = [self.rng_gen.len()];
        assert(shape@ =~= seq![self.rng_gen@.len() as usize]);
        let mut fs: Vec<LayoutField> = Vec::new();
        fs.push(field("rng_gen_wrapper", array_dtype(&shape)));
        RecordLayout::Record(fs)
    }

    /// The generator seeded from `seed`.
    pub fn seed_from_u64(seed: u64) -> (res: Self)
        ensures
            res.wf(),
            res.rng_gen@ == pcg64mcg_seeded_bytes(seed),
    {
        RngGenWrapper { rng_gen: pcg_seeded_bytes(seed) }
    }

    /// Draws a number in `0..bound` and advances the generator.
    pub fn gen_range(&mut self, bound: u64) -> (res: u64)
        requires
            old(self).wf(),
            bound > 0,
        ensures
            final(self).wf(),
            (res, final(self).rng_gen@) == pcg64mcg_gen_range(old(self).rng_gen@, bound),
            res < bound,
    {
        let (value, state) = pcg_gen_range(&self.rng_gen, bound);
        self.rng_gen = state;
        value
    }

    /// The generator whose state bytes open `bytes`, or `None` when there are
    /// fewer than 16.
    pub fn from_bytes(bytes: &[u8]) -> (res: Option<Self>)
        ensures
            bytes@.len() >= 16 ==> (res matches Some(r) && r.wf() && r.rng_gen@ == bytes@.subrange(0, 16)),
            bytes@.len() < 16 ==> res is None,
    {
        match pcg_reserialize(bytes) {
            Some(state) => Some(RngGenWrapper { rng_gen: state }),
            None => None,
        }
    }
}

/// Writes a generator as its 16 state bytes.
pub struct RngGenWrapperWriter {}

impl RngGenWrapperWriter {
    pub fn write_one(&self, writer: &mut Vec<u8>, value: &RngGenWrapper)
        ensures
            final(writer)@ == old(writer)@ + value.rng_gen@,
    {
        let mut i: usize = 0;
        while i < value.rng_gen.len()
            invariant
                0 <= i <= value.rng_gen@.len(),
                writer@ == old(writer)@ + value.rng_gen@.subrange(0, i as int),
            decreases value.rng_gen@.len() - i,
        {
            writer.push(value.rng_gen[i]);
            assert(value.rng_gen@.subrange(0, i + 1) =~= value.rng_gen@.subrange(0, i as int).push(
                value.rng_gen@[i as int],
            ));
            i += 1;
        }
        assert(value.rng_gen@.subrange(0, value.rng_gen@.len() as int) =~= value.rng_gen@);
    }
}

/// Reads a generator from the first 16 bytes of a record.
pub struct RngGenWrapperReader {}

impl RngGenWrapperReader {
    pub fn read_one(&self, reader: &[u8]) -> (res: RngGenWrapper)
        requires
            reader@.len() >= 16,
        ensures
            res.wf(),
            res.rng_gen@ == reader@.subrange(0, 16),
    {
        match RngGenWrapper::from_bytes(reader) {
            Some(r) => r,
            None => {
                assert(false);
                RngGenWrapper { rng_gen: Vec::new() }
            },
        }
    }
}

} // verus!
