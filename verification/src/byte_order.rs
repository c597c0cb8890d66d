//! Little-endian encoding of unsigned integers, as used by every record of
//! the backup files.
use vstd::prelude::*;

verus! {

pub open spec fn pow256(k: nat) -> nat
    decreases k,
{
    if k == 0 {
        1
    } else {
        256 * pow256((k - 1) as nat)
    }
}

/// The `k` low bytes of `n`, least significant first.
pub open spec fn le_bytes(n: nat, k: nat) -> Seq<u8>
    decreases k,
{
    if k == 0 {
        Seq::empty()
    } else {
        seq![(n % 256) as u8] + le_bytes(n / 256, (k - 1) as nat)
    }
}

/// The number that `b` encodes, least significant byte first.
pub open spec fn le_value(b: Seq<u8>) -> nat
    decreases b.len(),
{
    if b.len() == 0 {
        0
    } else {
        b[0] as nat + 256 * le_value(b.drop_first())
    }
}

/// Every power of 256 is positive.
pub proof fn lemma_pow256_pos(k: nat)
    ensures
        pow256(k) >= 1,
    decreases k,
{
    if k > 0 {
        lemma_pow256_pos((k - 1) as nat);
    }
}

/// The fourth and eighth powers of 256.
pub proof fn lemma_pow256_values()
    ensures
        pow256(4) == 0x1_0000_0000,
        pow256(8) == 0x1_0000_0000_0000_0000,
{
    reveal_with_fuel(pow256, 9);
}

/// `le_bytes(n, k)` has `k` bytes.
pub proof fn lemma_le_bytes_len(n: nat, k: nat)
    ensures
        le_bytes(n, k).len() == k,
    decreases k,
{
    if k > 0 {
        lemma_le_bytes_len(n / 256, (k - 1) as nat);
    }
}

/// Decoding the `k` low bytes of `n` gives `n` back when `n` fits in them.
pub proof fn lemma_le_roundtrip(n: nat, k: nat)
    requires
        n < pow256(k),
    ensures
        le_value(le_bytes(n, k)) == n,
    decreases k,
{
    if k > 0 {
        let m = n / 256;
        assert(m < pow256((k - 1) as nat)) by (nonlinear_arith)
            requires
                n < 256 * pow256((k - 1) as nat),
                m == n / 256,
        ;
        lemma_le_roundtrip(m, (k - 1) as nat);
        lemma_le_bytes_len(n, k);
        assert(le_bytes(n, k).drop_first() =~= le_bytes(m, (k - 1) as nat));
        assert(n == n % 256 + 256 * m) by (nonlinear_arith)
            requires
                m == n / 256,
        ;
    }
}

/// Every byte string decodes to a number below `256^len`.
pub proof fn lemma_le_value_bound(b: Seq<u8>)
    ensures
        le_value(b) < pow256(b.len()),
    decreases b.len(),
{
    if b.len() > 0 {
        lemma_le_value_bound(b.drop_first());
        let v = le_value(b.drop_first());
        let p = pow256((b.len() - 1) as nat);
        assert(b[0] as nat + 256 * v < 256 * p) by (nonlinear_arith)
            requires
                v < p,
                b[0] < 256,
        ;
    }
}

/// Encoding the number that `b` decodes to gives `b` back.
pub proof fn lemma_le_bytes_of_value(b: Seq<u8>)
    ensures
        le_bytes(le_value(b), b.len()) == b,
    decreases b.len(),
{
    if b.len() > 0 {
        let rest = b.drop_first();
        lemma_le_bytes_of_value(rest);
        let v = le_value(b);
        let r = le_value(rest);
        assert(v % 256 == b[0] as nat && v / 256 == r) by (nonlinear_arith)
            requires
                v == b[0] as nat + 256 * r,
                b[0] < 256,
        ;
        assert(le_bytes(v, b.len()) =~= b);
    }
}

/// Appends the `k` low bytes of `n` to `out`, least significant first.
pub fn write_le(out: &mut Vec<u8>, n: u64, k: usize)
    requires
        k <= 8,
    ensures
        final(out)@ == old(out)@ + le_bytes(n as nat, k as nat),
{
    let mut x: u64 = n;
    let mut i: usize = 0;
    while i < k
        invariant
            0 <= i <= k,
            old(out)@ + le_bytes(n as nat, k as nat) == out@ + le_bytes(x as nat, (k - i) as nat),
        decreases k - i,
    {
        let ghost before = out@;
        out.push((x % 256) as u8);
        assert(le_bytes(x as nat, (k - i) as nat) == seq![(x % 256) as u8] + le_bytes(
            (x / 256) as nat,
            (k - i - 1) as nat,
        ));
        assert(before + le_bytes(x as nat, (k - i) as nat) =~= out@ + le_bytes(
            (x / 256) as nat,
            (k - i - 1) as nat,
        ));
        x = x / 256;
        i += 1;
    }
    assert(out@ + le_bytes(x as nat, 0) =~= out@);
}

/// The number encoded by `b[start..start + k]`, least significant first.
pub fn read_le(b: &[u8], start: usize, k: usize) -> (res: u64)
    requires
        k <= 8,
        start + k <= b@.len(),
    ensures
        res as nat == le_value(b@.subrange(start as int, start + k)),
{
    let len = b.len();
    let mut acc: u64 = 0;
    let mut j: usize = k;
    proof {
        lemma_pow256_values();
        assert(b@.subrange(start + k, start + k) =~= Seq::<u8>::empty());
    }
    while j > 0
        invariant
            0 <= j <= k <= 8,
            start + k <= b@.len(),
            len == b@.len(),
            acc as nat == le_value(b@.subrange(start + j, start + k)),
            pow256(8) == 0x1_0000_0000_0000_0000,
        decreases j,
    {
        let ghost s = b@.subrange(start + j - 1, start + k);
        assert(s.drop_first() =~= b@.subrange(start + j, start + k));
        proof {
            lemma_le_value_bound(s);
            lemma_pow256_monotone(s.len(), 8);
        }
        assert(le_value(s) == b[start + j - 1] as nat + 256 * (acc as nat));
        assert(s.len() <= 8);
        assert(le_value(s) < 0x1_0000_0000_0000_0000);
        assert(acc * 256 + b[start + j - 1] < 0x1_0000_0000_0000_0000);
        acc = acc * 256 + b[start + j - 1] as u64;
        j -= 1;
    }
    acc
}

/// Powers of 256 grow with the exponent.
pub proof fn lemma_pow256_monotone(i: nat, j: nat)
    requires
        i <= j,
    ensures
        pow256(i) <= pow256(j),
    decreases j,
{
    if i < j {
        lemma_pow256_monotone(i, (j - 1) as nat);
        lemma_pow256_pos((j - 1) as nat);
    }
}

} // verus!
