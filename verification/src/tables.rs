//! Per-square blocker and attack tables: for one square, every blocker
//! subset of its premask paired with the true attack set for that subset.

use vstd::prelude::*;
use vstd::arithmetic::power2::pow2;
use vstd::bits::lemma_u64_pow2_no_overflow;
use vstd::bits::lemma_u64_shl_is_mul;
use crate::bits::bit64;
use crate::bits::popcount;
use crate::bits::low_mask;
use crate::bits::popcount64;
use crate::blockers::spec_blockers;
use crate::blockers::blocker_index;
use crate::blockers::gen_blockers;
use crate::blockers::lemma_blockers_of_index;
use crate::attacks::spec_moves;
use crate::attacks::moves_with_blockers;

verus! {

/// Builds the two tables of one square: entry `i` of the first is the
/// blocker subset that counter `i` selects from `premask`, entry `i` of the
/// second is the attack set computed by ray walking over that subset. Both
/// tables hold every counter in `0 .. 2^popcount(premask)` — the whole
/// subset space, nothing skipped, nothing twice.
pub fn square_tables(sq: u8, premask: u64, offsets: &Vec<i8>) -> (r: (Vec<u64>, Vec<u64>))
    requires
        sq < 64,
        popcount(premask) < 32,
    ensures
        r.0@.len() == pow2(popcount(premask)),
        r.1@.len() == r.0@.len(),
        forall|i: int| 0 <= i < r.0@.len() ==> r.0@[i] == spec_blockers(premask, i as u64),
        forall|i: int|
            0 <= i < r.1@.len() ==> r.1@[i] == spec_moves(sq as int, offsets@, r.0@[i]),
{
    let pc: u32 = popcount64(premask);
    proof {
        lemma_u64_pow2_no_overflow(pc as nat);
        lemma_u64_shl_is_mul(1u64, pc as u64);
    }
    let n: u64 = 1u64 << (pc as u64);
    let mut blockers: Vec<u64> = Vec::new();
    let mut attacks: Vec<u64> = Vec::new();
    let mut c: u64 = 0;
    while c < n
        invariant
            sq < 64,
            n == pow2(popcount(premask)),
            c <= n,
            blockers@.len() == c,
            attacks@.len() == c,
            forall|i: int| 0 <= i < c ==> blockers@[i] == spec_blockers(premask, i as u64),
            forall|i: int|
                0 <= i < c ==> attacks@[i] == spec_moves(sq as int, offsets@, blockers@[i]),
        decreases n - c,
    {
        let b = gen_blockers(premask, c);
        let m = moves_with_blockers(sq, offsets, b);
        blockers.push(b);
        attacks.push(m);
        c = c + 1;
    }
    (blockers, attacks)
}

/// Ground truth of the attack table: for any blocker subset `b` of the
/// premask, its enumeration index is in range, the blocker table holds `b`
/// there, and the attack table holds exactly the attack set that direct ray
/// walking over `b` computes.
pub proof fn lemma_attack_table_ground_truth(
    sq: int,
    premask: u64,
    offsets: Seq<i8>,
    blockers: Seq<u64>,
    attacks: Seq<u64>,
    b: u64,
)
    requires
        blockers.len() == pow2(popcount(premask)),
        attacks.len() == blockers.len(),
        forall|i: int| 0 <= i < blockers.len() ==> blockers[i] == spec_blockers(premask, i as u64),
        forall|i: int| 0 <= i < attacks.len() ==> attacks[i] == spec_moves(sq, offsets, blockers[i]),
        forall|i: u64| i < 64 ==> (bit64(b, i) ==> bit64(premask, i)),
    ensures
        blocker_index(premask, b) < blockers.len(),
        blockers[blocker_index(premask, b) as int] == b,
        attacks[blocker_index(premask, b) as int] == spec_moves(sq, offsets, b),
{
    lemma_blockers_of_index(premask, b);
    let pc = popcount(premask);
    crate::bits::lemma_ones_below_le(premask, 64);
    if pc < 64 {
        lemma_u64_pow2_no_overflow(pc);
        lemma_u64_shl_is_mul(1u64, pc as u64);
        assert(low_mask(pc as u64) == ((1u64 << (pc as u64)) - 1) as u64);
    } else {
        vstd::arithmetic::power2::lemma2_to64_rest();
        assert(low_mask(64) == 0xFFFF_FFFF_FFFF_FFFFu64);
    }
}

/// Builds the blocker and attack tables of all 64 squares, one pair of
/// tables per square, sized by that square's own premask.
pub fn init_movemasks(premasks: &Vec<u64>, offsets: &Vec<i8>) -> (r: (Vec<Vec<u64>>, Vec<Vec<u64>>))
    requires
        premasks@.len() == 64,
        forall|s: int| 0 <= s < 64 ==> popcount(premasks@[s]) < 32,
    ensures
        r.0@.len() == 64,
        r.1@.len() == 64,
        forall|s: int| 0 <= s < 64 ==> r.0@[s]@.len() == pow2(popcount(premasks@[s])),
        forall|s: int| 0 <= s < 64 ==> r.1@[s]@.len() == r.0@[s]@.len(),
        forall|s: int, i: int|
            0 <= s < 64 && 0 <= i < r.0@[s]@.len() ==> r.0@[s]@[i] == spec_blockers(
                premasks@[s],
                i as u64,
            ),
        forall|s: int, i: int|
            0 <= s < 64 && 0 <= i < r.1@[s]@.len() ==> r.1@[s]@[i] == spec_moves(
                s,
                offsets@,
                r.0@[s]@[i],
            ),
{
    let mut all_blockers: Vec<Vec<u64>> = Vec::new();
    let mut all_attacks: Vec<Vec<u64>> = Vec::new();
    let mut sq: u8 = 0;
    while sq < 64
        invariant
            sq <= 64,
            premasks@.len() == 64,
            forall|s: int| 0 <= s < 64 ==> popcount(premasks@[s]) < 32,
            all_blockers@.len() == sq,
            all_attacks@.len() == sq,
            forall|s: int|
                0 <= s < sq ==> all_blockers@[s]@.len() == pow2(popcount(premasks@[s])),
            forall|s: int| 0 <= s < sq ==> all_attacks@[s]@.len() == all_blockers@[s]@.len(),
            forall|s: int, i: int|
                0 <= s < sq && 0 <= i < all_blockers@[s]@.len() ==> all_blockers@[s]@[i]
                    == spec_blockers(premasks@[s], i as u64),
            forall|s: int, i: int|
                0 <= s < sq && 0 <= i < all_attacks@[s]@.len() ==> all_attacks@[s]@[i]
                    == spec_moves(s, offsets@, all_blockers@[s]@[i]),
        decreases 64 - sq,
    {
        let premask = premasks[sq as usize];
        let (b, a) = square_tables(sq, premask, offsets);
        all_blockers.push(b);
        all_attacks.push(a);
        sq = sq + 1;
    }
    (all_blockers, all_attacks)
}

} // verus!
