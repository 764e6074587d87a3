//! Board geometry: the edge-wrap test for a single step and the conversion
//! of a list of square indices into a bitboard.

use vstd::prelude::*;
use crate::bits::bit64;

verus! {

/// Squares `a` and `b` (any squares, read modulo the board width) lie on
/// files at most two apart.
pub open spec fn spec_no_wrap(a: u8, b: u8) -> bool {
    -2 <= (a as int % 8) - (b as int % 8) <= 2
}

/// Whether a single step from `a` to `b` stays on the board horizontally:
/// the files must differ by at most two. The tolerance is two, not one, so
/// that the same test also accepts knight jumps; sliding steps only ever
/// have file deltas of one or seven, so the looser bound changes nothing
/// for them.
pub fn no_wrap(a: u8, b: u8) -> (r: bool)
    ensures
        r == spec_no_wrap(a, b),
{
    let fa: i16 = (a % 8) as i16;
    let fb: i16 = (b % 8) as i16;
    let d: i16 = fa - fb;
    -2 <= d && d <= 2
}

/// Bitboard with one bit per listed square.
pub open spec fn spec_one_at(s: Seq<u8>) -> u64
    decreases s.len(),
{
    if s.len() == 0 {
        0u64
    } else {
        spec_one_at(s.drop_last()) | (1u64 << (s.last() as u64))
    }
}

/// Bit `i` of `spec_one_at(s)` is set exactly when `i` is listed in `s`.
pub proof fn lemma_one_at_bits(s: Seq<u8>, i: u64)
    requires
        i < 64,
        forall|k: int| 0 <= k < s.len() ==> s[k] < 64,
    ensures
        bit64(spec_one_at(s), i) == s.contains(i as u8),
    decreases s.len(),
{
    if s.len() == 0 {
        assert(!bit64(0u64, i)) by (bit_vector);
    } else {
        let pre = s.drop_last();
        lemma_one_at_bits(pre, i);
        crate::bits::lemma_bit_or(spec_one_at(pre), 1u64 << (s.last() as u64), i);
        crate::bits::lemma_bit_single(s.last() as u64, i);
        if s.contains(i as u8) {
            let k = choose|k: int| 0 <= k < s.len() && s[k] == i as u8;
            if k < s.len() - 1 {
                assert(pre[k] == i as u8);
                assert(pre.contains(i as u8));
            }
        }
        if pre.contains(i as u8) {
            assert(s.contains(i as u8)) by {
                let k = choose|k: int| 0 <= k < pre.len() && pre[k] == i as u8;
                assert(s[k] == i as u8);
            }
        }
    }
}

/// Returns a bitboard with exactly one bit set per listed square index.
/// Indices must be below 64: a 64-bit board cannot hold any other.
pub fn one_at(b: Vec<u8>) -> (r: u64)
    requires
        forall|k: int| 0 <= k < b@.len() ==> b@[k] < 64,
    ensures
        r == spec_one_at(b@),
        forall|i: u64| i < 64 ==> bit64(r, i) == b@.contains(i as u8),
{
    let mut mask: u64 = 0;
    let mut idx: usize = 0;
    while idx < b.len()
        invariant
            idx <= b.len(),
            forall|k: int| 0 <= k < b@.len() ==> b@[k] < 64,
            mask == spec_one_at(b@.subrange(0, idx as int)),
        decreases b.len() - idx,
    {
        let bitpos = b[idx];
        proof {
            let pre = b@.subrange(0, idx as int);
            let cur = b@.subrange(0, idx as int + 1);
            assert(cur.drop_last() =~= pre);
            assert(cur.last() == b@[idx as int]);
        }
        mask = mask | (1u64 << (bitpos as u64));
        idx = idx + 1;
    }
    proof {
        assert(b@.subrange(0, b@.len() as int) =~= b@);
        assert forall|i: u64| i < 64 implies bit64(mask, i) == b@.contains(i as u8) by {
            lemma_one_at_bits(b@, i);
        }
    }
    mask
}

} // verus!
