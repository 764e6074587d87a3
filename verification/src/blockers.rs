//! Enumeration of blocker subsets of a premask.
//!
//! A premask with `k` set bits has `2^k` subsets. `gen_blockers` maps a
//! counter in `0 .. 2^k` to one subset: the `j`-th set bit of the mask is
//! kept exactly when bit `j` of the counter is set, counting the mask's set
//! bits from the least significant upward. The map is a bijection between
//! counters and subsets; the proof functions at the bottom state that.

use vstd::prelude::*;
use crate::bits::bit64;
use crate::bits::low_mask;
use crate::bits::ones_below;
use crate::bits::popcount;
use crate::bits::lemma_ones_below_le;
use crate::bits::lemma_ones_below_mono;
use crate::bits::lemma_bit_or;
use crate::bits::lemma_bit_single;
use crate::bits::lemma_bit_ext;
use crate::bits::lemma_below_pow_bits;
use crate::bits::lemma_bits_below_pow;

verus! {

/// Whether square `i` belongs to the blocker subset that `counter` selects
/// from `mask`: the square must be in the mask, and the counter bit that
/// corresponds to it (its rank among the mask's set bits) must be set.
pub open spec fn blocker_bit(mask: u64, counter: u64, i: u64) -> bool
    recommends
        i < 64,
{
    bit64(mask, i) && bit64(counter, ones_below(mask, i as int) as u64)
}

/// The blocker subset restricted to squares below `n`.
pub open spec fn blockers_below(mask: u64, counter: u64, n: int) -> u64
    decreases n,
{
    if n <= 0 {
        0u64
    } else {
        let prev = blockers_below(mask, counter, n - 1);
        if blocker_bit(mask, counter, (n - 1) as u64) {
            prev | (1u64 << ((n - 1) as u64))
        } else {
            prev
        }
    }
}

/// The blocker subset that `counter` selects from `mask`.
pub open spec fn spec_blockers(mask: u64, counter: u64) -> u64 {
    blockers_below(mask, counter, 64)
}

/// Bit `i` of the partial subset is `blocker_bit` below the cut, clear above.
pub proof fn lemma_blockers_bits(mask: u64, counter: u64, n: int, i: u64)
    requires
        0 <= n <= 64,
        i < 64,
    ensures
        bit64(blockers_below(mask, counter, n), i) == (i < n && blocker_bit(
            mask,
            counter,
            i,
        )),
    decreases n,
{
    if n == 0 {
        assert(!bit64(0u64, i)) by (bit_vector);
    } else {
        lemma_blockers_bits(mask, counter, n - 1, i);
        let prev = blockers_below(mask, counter, n - 1);
        if blocker_bit(mask, counter, (n - 1) as u64) {
            lemma_bit_or(prev, 1u64 << ((n - 1) as u64), i);
            lemma_bit_single((n - 1) as u64, i);
        }
    }
}

/// Builds the blocker subset of `mask` selected by `counter`: walking the
/// board squares upward, each set bit of `mask` consumes one bit of
/// `counter`, and the square enters the subset when that counter bit is set.
pub fn gen_blockers(mask: u64, counter: u64) -> (r: u64)
    ensures
        r == spec_blockers(mask, counter),
        forall|i: u64| i < 64 ==> bit64(r, i) == blocker_bit(mask, counter, i),
{
    let mut res: u64 = 0;
    let mut counter_position: u64 = 0;
    let mut b: u64 = 0;
    while b < 64
        invariant
            b <= 64,
            counter_position == ones_below(mask, b as int),
            res == blockers_below(mask, counter, b as int),
        decreases 64 - b,
    {
        proof {
            lemma_ones_below_le(mask, b as int);
        }
        if (mask >> b) & 1 == 1 {
            if (counter >> counter_position) & 1 == 1 {
                res = res | (1u64 << b);
            }
            counter_position = counter_position + 1;
        }
        b = b + 1;
    }
    proof {
        assert forall|i: u64| i < 64 implies bit64(res, i) == blocker_bit(mask, counter, i) by {
            lemma_blockers_bits(mask, counter, 64, i);
        }
    }
    res
}

/// The inverse packing, restricted to squares below `n`: each square of the
/// subset `s` that lies in `mask` contributes one counter bit.
pub open spec fn index_below(mask: u64, s: u64, n: int) -> u64
    decreases n,
{
    if n <= 0 {
        0u64
    } else {
        let prev = index_below(mask, s, n - 1);
        if bit64(mask, (n - 1) as u64) && bit64(s, (n - 1) as u64) {
            prev | (1u64 << (ones_below(mask, n - 1) as u64))
        } else {
            prev
        }
    }
}

/// The counter that selects subset `s` from `mask`.
pub open spec fn blocker_index(mask: u64, s: u64) -> u64 {
    index_below(mask, s, 64)
}

/// Every bit of the partial counter sits below `ones_below(mask, n)`.
proof fn lemma_index_below_bits_high(mask: u64, s: u64, n: int, p: u64)
    requires
        0 <= n <= 64,
        p < 64,
        ones_below(mask, n) <= p,
    ensures
        !bit64(index_below(mask, s, n), p),
    decreases n,
{
    if n == 0 {
        assert(!bit64(0u64, p)) by (bit_vector);
    } else {
        lemma_ones_below_mono(mask, n - 1, n);
        lemma_index_below_bits_high(mask, s, n - 1, p);
        let prev = index_below(mask, s, n - 1);
        if bit64(mask, (n - 1) as u64) && bit64(s, (n - 1) as u64) {
            let q = ones_below(mask, n - 1) as u64;
            lemma_ones_below_le(mask, n - 1);
            lemma_bit_or(prev, 1u64 << q, p);
            lemma_bit_single(q, p);
        }
    }
}

/// For a set bit `j` of `mask`, counter bit `ones_below(mask, j)` of the
/// packing records exactly bit `j` of the subset.
proof fn lemma_index_below_bit_at(mask: u64, s: u64, n: int, j: u64)
    requires
        0 <= n <= 64,
        j < 64,
        (j as int) < n,
        bit64(mask, j),
    ensures
        bit64(index_below(mask, s, n), ones_below(mask, j as int) as u64) == bit64(s, j),
    decreases n,
{
    lemma_ones_below_le(mask, j as int);
    let p = ones_below(mask, j as int) as u64;
    let prev = index_below(mask, s, n - 1);
    if n == j + 1 {
        lemma_index_below_bits_high(mask, s, n - 1, p);
        if bit64(s, j) {
            lemma_bit_or(prev, 1u64 << p, p);
            lemma_bit_single(p, p);
        }
    } else {
        lemma_index_below_bit_at(mask, s, n - 1, j);
        if bit64(mask, (n - 1) as u64) && bit64(s, (n - 1) as u64) {
            let q = ones_below(mask, n - 1) as u64;
            lemma_ones_below_le(mask, n - 1);
            lemma_ones_below_mono(mask, j as int + 1, n - 1);
            lemma_bit_or(prev, 1u64 << q, p);
            lemma_bit_single(q, p);
        }
    }
}

/// Below `ones_below(mask, n)` there is a set bit of `mask` for every rank:
/// rank `p` is held by some square `j` with `ones_below(mask, j) == p`.
proof fn lemma_nth_bit_exists(mask: u64, n: int, p: nat)
    requires
        0 <= n <= 64,
        p < ones_below(mask, n),
    ensures
        exists|j: u64|
            j < n && bit64(mask, j) && ones_below(mask, j as int) == p,
    decreases n,
{
    if p < ones_below(mask, n - 1) {
        lemma_nth_bit_exists(mask, n - 1, p);
        let j = choose|j: u64|
            j < n - 1 && bit64(mask, j) && ones_below(mask, j as int) == p;
        assert(j < n && bit64(mask, j) && ones_below(mask, j as int) == p);
    } else {
        let j = (n - 1) as u64;
        assert(bit64(mask, j) && ones_below(mask, j as int) == p);
    }
}

/// Every blocker subset is a subset of the mask it was drawn from.
pub proof fn lemma_blockers_subset(mask: u64, counter: u64, i: u64)
    requires
        i < 64,
    ensures
        bit64(spec_blockers(mask, counter), i) ==> bit64(mask, i),
{
    lemma_blockers_bits(mask, counter, 64, i);
}

/// Packing a drawn subset recovers the counter: `blocker_index` is a left
/// inverse of `spec_blockers` on counters below `2^popcount(mask)`.
pub proof fn lemma_index_of_blockers(mask: u64, counter: u64)
    requires
        counter <= low_mask(popcount(mask) as u64),
    ensures
        blocker_index(mask, spec_blockers(mask, counter)) == counter,
{
    let s = spec_blockers(mask, counter);
    let c = blocker_index(mask, s);
    let pc = popcount(mask) as u64;
    lemma_ones_below_le(mask, 64);
    assert forall|p: u64| p < 64 implies bit64(c, p) == bit64(counter, p) by {
        if p < pc {
            lemma_nth_bit_exists(mask, 64, p as nat);
            let j = choose|j: u64|
                j < 64 && bit64(mask, j) && ones_below(mask, j as int) == p as nat;
            lemma_index_below_bit_at(mask, s, 64, j);
            lemma_blockers_bits(mask, counter, 64, j);
        } else {
            lemma_index_below_bits_high(mask, s, 64, p);
            if pc < 64 {
                assert(low_mask(pc) == ((1u64 << pc) - 1) as u64);
                assert(counter < (1u64 << pc)) by (bit_vector)
                    requires
                        pc < 64,
                        counter <= ((1u64 << pc) - 1) as u64,
                ;
                lemma_below_pow_bits(counter, pc, p);
            }
        }
    }
    lemma_bit_ext(c, counter);
}

/// Two distinct counters in range draw two distinct blocker subsets: the
/// enumeration produces no duplicates.
pub proof fn lemma_blockers_injective(mask: u64, c1: u64, c2: u64)
    requires
        c1 <= low_mask(popcount(mask) as u64),
        c2 <= low_mask(popcount(mask) as u64),
        spec_blockers(mask, c1) == spec_blockers(mask, c2),
    ensures
        c1 == c2,
{
    lemma_index_of_blockers(mask, c1);
    lemma_index_of_blockers(mask, c2);
}

/// An empty premask has exactly one blocker subset: the empty board. Its
/// set-bit count is zero, so a single counter is in range, and every
/// counter draws the empty subset.
pub proof fn lemma_empty_premask(counter: u64)
    ensures
        popcount(0u64) == 0,
        spec_blockers(0u64, counter) == 0u64,
{
    crate::bits::lemma_ones_below_zero(64);
    assert forall|i: u64| i < 64 implies bit64(spec_blockers(0u64, counter), i) == bit64(
        0u64,
        i,
    ) by {
        lemma_blockers_bits(0u64, counter, 64, i);
        assert(!bit64(0u64, i)) by (bit_vector);
    }
    lemma_bit_ext(spec_blockers(0u64, counter), 0u64);
}

/// Every subset of the mask is drawn by some counter in range: the
/// enumeration omits nothing. The witness is `blocker_index(mask, s)`.
pub proof fn lemma_blockers_of_index(mask: u64, s: u64)
    requires
        forall|i: u64| i < 64 ==> (bit64(s, i) ==> bit64(mask, i)),
    ensures
        blocker_index(mask, s) <= low_mask(popcount(mask) as u64),
        spec_blockers(mask, blocker_index(mask, s)) == s,
{
    let c = blocker_index(mask, s);
    let pc = popcount(mask) as u64;
    lemma_ones_below_le(mask, 64);
    assert forall|p: u64| pc <= p < 64 implies !bit64(c, p) by {
        lemma_index_below_bits_high(mask, s, 64, p);
    }
    if pc < 64 {
        lemma_bits_below_pow(c, pc);
        assert(c <= low_mask(pc)) by (bit_vector)
            requires
                pc < 64,
                c < (1u64 << pc),
        ;
    }
    assert forall|i: u64| i < 64 implies bit64(spec_blockers(mask, c), i) == bit64(s, i) by {
        lemma_blockers_bits(mask, c, 64, i);
        if bit64(mask, i) {
            lemma_index_below_bit_at(mask, s, 64, i);
        }
    }
    lemma_bit_ext(spec_blockers(mask, c), s);
}

} // verus!
