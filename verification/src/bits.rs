//! Bit-level view of a 64-bit bitboard: single-bit reads, set-bit counts,
//! and the handful of bitwise facts the rest of the crate reasons with.

use vstd::prelude::*;

verus! {

/// True when bit `i` of `x` is set. Meaningful for `i < 64`.
pub open spec fn bit64(x: u64, i: u64) -> bool
    recommends
        i < 64,
{
    (x >> i) & 1 == 1
}

/// Number of set bits of `x` at positions below `n`.
pub open spec fn ones_below(x: u64, n: int) -> nat
    decreases n,
{
    if n <= 0 {
        0
    } else {
        ones_below(x, n - 1) + if bit64(x, (n - 1) as u64) {
            1nat
        } else {
            0nat
        }
    }
}

/// Total number of set bits of `x`.
pub open spec fn popcount(x: u64) -> nat {
    ones_below(x, 64)
}

/// At most `n` bits are set below position `n`.
pub proof fn lemma_ones_below_le(x: u64, n: int)
    requires
        0 <= n,
    ensures
        ones_below(x, n) <= n,
    decreases n,
{
    if n > 0 {
        lemma_ones_below_le(x, n - 1);
    }
}

/// Counting set bits never decreases as the position bound grows.
pub proof fn lemma_ones_below_mono(x: u64, m: int, n: int)
    requires
        0 <= m <= n,
    ensures
        ones_below(x, m) <= ones_below(x, n),
    decreases n,
{
    if m < n {
        lemma_ones_below_mono(x, m, n - 1);
    }
}

/// The empty bitboard has no set bits below any position.
pub proof fn lemma_ones_below_zero(n: int)
    ensures
        ones_below(0u64, n) == 0,
    decreases n,
{
    if n > 0 {
        lemma_ones_below_zero(n - 1);
        let i = (n - 1) as u64;
        assert(!bit64(0u64, i)) by (bit_vector);
    }
}

/// A bit of an `or` is the `or` of the bits.
pub proof fn lemma_bit_or(x: u64, y: u64, i: u64)
    by (bit_vector)
    requires
        i < 64,
    ensures
        bit64(x | y, i) == (bit64(x, i) || bit64(y, i)),
{
}

/// A bit of an `and` is the `and` of the bits.
pub proof fn lemma_bit_and(x: u64, y: u64, i: u64)
    by (bit_vector)
    requires
        i < 64,
    ensures
        bit64(x & y, i) == (bit64(x, i) && bit64(y, i)),
{
}

/// `or` with zero changes nothing.
pub proof fn lemma_or_zero(x: u64)
    by (bit_vector)
    ensures
        x | 0 == x,
{
}

/// `or` with zero changes nothing, on the left either.
pub proof fn lemma_zero_or(x: u64)
    by (bit_vector)
    ensures
        0 | x == x,
{
}

/// `or` associates.
pub proof fn lemma_or_assoc(x: u64, y: u64, z: u64)
    by (bit_vector)
    ensures
        (x | y) | z == x | (y | z),
{
}

/// The single-bit mask `1 << j` has exactly bit `j` set.
pub proof fn lemma_bit_single(j: u64, i: u64)
    by (bit_vector)
    requires
        i < 64,
        j < 64,
    ensures
        bit64(1u64 << j, i) == (i == j),
{
}

/// Mask with exactly the bits below `n` set.
pub open spec fn low_mask(n: u64) -> u64 {
    if n >= 64 {
        0xFFFF_FFFF_FFFF_FFFFu64
    } else {
        ((1u64 << n) - 1) as u64
    }
}

/// Bit `i` of `low_mask(n)` is set exactly when `i < n`.
pub proof fn lemma_bit_low_mask(n: u64, i: u64)
    by (bit_vector)
    requires
        i < 64,
    ensures
        bit64(low_mask(n), i) == (i < n),
{
}

/// Growing a low mask by one position adds exactly that bit of `c`.
proof fn lemma_low_mask_step(c: u64, n: u64)
    by (bit_vector)
    requires
        n < 64,
    ensures
        c & low_mask((n + 1) as u64) == (c & low_mask(n)) | (if bit64(c, n) {
            1u64 << n
        } else {
            0u64
        }),
{
}

/// Words that agree on every bit below `n` agree under `low_mask(n)`.
proof fn lemma_bit_ext_below(x: u64, y: u64, n: u64)
    requires
        n <= 64,
        forall|i: u64| i < n ==> bit64(x, i) == bit64(y, i),
    ensures
        x & low_mask(n) == y & low_mask(n),
    decreases n,
{
    if n == 0 {
        assert(x & low_mask(0) == y & low_mask(0)) by (bit_vector);
    } else {
        lemma_bit_ext_below(x, y, (n - 1) as u64);
        lemma_low_mask_step(x, (n - 1) as u64);
        lemma_low_mask_step(y, (n - 1) as u64);
    }
}

/// Two words that agree on every bit are equal.
pub proof fn lemma_bit_ext(x: u64, y: u64)
    requires
        forall|i: u64| i < 64 ==> bit64(x, i) == bit64(y, i),
    ensures
        x == y,
{
    lemma_bit_ext_below(x, y, 64);
    assert(x & low_mask(64) == x) by (bit_vector);
    assert(y & low_mask(64) == y) by (bit_vector);
}

/// A value below `1 << k` has no bit set at position `k` or above.
pub proof fn lemma_below_pow_bits(c: u64, k: u64, p: u64)
    by (bit_vector)
    requires
        k < 64,
        c < (1u64 << k),
        k <= p < 64,
    ensures
        !bit64(c, p),
{
}

/// A value whose bits all sit below `k` is below `1 << k`.
pub proof fn lemma_bits_below_pow(c: u64, k: u64)
    requires
        k < 64,
        forall|p: u64| k <= p < 64 ==> !bit64(c, p),
    ensures
        c < (1u64 << k),
{
    assert forall|i: u64| i < 64 implies bit64(c, i) == bit64(c & low_mask(k), i) by {
        lemma_bit_and(c, low_mask(k), i);
        lemma_bit_low_mask(k, i);
    }
    lemma_bit_ext(c, c & low_mask(k));
    assert(c & low_mask(k) < (1u64 << k)) by (bit_vector)
        requires
            k < 64,
    ;
}

/// Counts every set bit of `x`, one position at a time.
pub fn popcount64(x: u64) -> (r: u32)
    ensures
        r == popcount(x),
{
    let mut count: u32 = 0;
    let mut i: u64 = 0;
    while i < 64
        invariant
            i <= 64,
            count == ones_below(x, i as int),
        decreases 64 - i,
    {
        proof {
            lemma_ones_below_le(x, i as int);
        }
        if (x >> i) & 1 == 1 {
            count = count + 1;
        }
        i = i + 1;
    }
    count
}

} // verus!
