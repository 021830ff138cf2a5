//! Little-endian decoding of fixed-width integers from byte slices.

use vstd::prelude::*;

verus! {

/// The little-endian value of a byte sequence.
pub open spec fn le_value(s: Seq<u8>) -> nat
    decreases s.len(),
{
    if s.len() == 0 {
        0
    } else {
        s[0] as nat + 256 * le_value(s.drop_first())
    }
}

/// `256^k`.
pub open spec fn pow256(k: nat) -> nat
    decreases k,
{
    if k == 0 { 1 } else { 256 * pow256((k - 1) as nat) }
}

/// `n` bytes hold a value below `256^n`.
pub proof fn lemma_le_value_bound(s: Seq<u8>)
    ensures
        le_value(s) < pow256(s.len()),
    decreases s.len(),
{
    if s.len() > 0 {
        lemma_le_value_bound(s.drop_first());
    }
}

/// The little-endian value of `data[off..off + n]`, for `n <= 16`.
pub fn read_le(data: &[u8], off: usize, n: usize) -> (r: u128)
    requires
        n <= 16,
        off + n <= data@.len(),
    ensures
        r == le_value(data@.subrange(off as int, (off + n) as int)),
{
    let len = data.len();
    let mut v: u128 = 0;
    let mut i: usize = n;
    proof {
        assert(data@.subrange((off + n) as int, (off + n) as int) =~= Seq::<u8>::empty());
        lemma_pow256_monotone(0, 16);
    }
    while i > 0
        invariant
            i <= n <= 16,
            off + n <= data@.len(),
            len == data@.len(),
            v == le_value(data@.subrange((off + i) as int, (off + n) as int)),
            v < pow256((n - i) as nat),
            pow256((n - i) as nat) <= pow256(16),
        decreases i,
    {
        i = i - 1;
        let ghost s = data@.subrange((off + i) as int, (off + n) as int);
        proof {
            assert(s.drop_first() =~= data@.subrange((off + i + 1) as int, (off + n) as int));
            assert(pow256(16) == 0x1_0000_0000_0000_0000_0000_0000_0000_0000) by {
                reveal_with_fuel(pow256, 17);
            }
            lemma_pow256_monotone((n - i) as nat, 16);
            assert(off + i < data@.len());
            assert(pow256((n - i) as nat) == 256 * pow256((n - i - 1) as nat));
        }
        let b = data[off + i];
        v = v * 256 + b as u128;
    }
    v
}

/// `256^k` grows with `k`.
pub proof fn lemma_pow256_monotone(a: nat, b: nat)
    requires
        a <= b,
    ensures
        pow256(a) <= pow256(b),
    decreases b,
{
    if a < b {
        lemma_pow256_monotone(a, (b - 1) as nat);
    }
}

/// The little-endian `u64` at `data[off..off + 8]`.
pub fn read_u64_le(data: &[u8], off: usize) -> (r: u64)
    requires
        off + 8 <= data@.len(),
    ensures
        r == le_value(data@.subrange(off as int, off + 8)),
{
    let v = read_le(data, off, 8);
    proof {
        lemma_le_value_bound(data@.subrange(off as int, off + 8));
        reveal_with_fuel(pow256, 9);
    }
    v as u64
}

/// The little-endian `u16` at `data[off..off + 2]`.
pub fn read_u16_le(data: &[u8], off: usize) -> (r: u16)
    requires
        off + 2 <= data@.len(),
    ensures
        r == le_value(data@.subrange(off as int, off + 2)),
{
    let v = read_le(data, off, 2);
    proof {
        lemma_le_value_bound(data@.subrange(off as int, off + 2));
        reveal_with_fuel(pow256, 3);
    }
    v as u16
}

/// The little-endian `u128` at `data[off..off + 16]`.
pub fn read_u128_le(data: &[u8], off: usize) -> (r: u128)
    requires
        off + 16 <= data@.len(),
    ensures
        r == le_value(data@.subrange(off as int, off + 16)),
{
    read_le(data, off, 16)
}

} // verus!
