//! Attack-set computer: the true attack bitboard of a sliding piece for one
//! concrete blocker pattern, found by walking each ray outward and stopping
//! at — and including — the first occupied square.

use vstd::prelude::*;
use crate::bits::bit64;
use crate::bits::lemma_or_zero;
use crate::bits::lemma_zero_or;
use crate::bits::lemma_or_assoc;
use crate::geometry::spec_no_wrap;
use crate::geometry::no_wrap;

verus! {

/// Attack squares collected from `prev` in direction `o` with at most
/// `steps_left` further steps: every visited square up to the board edge,
/// cut short at the first square occupied in `blockers` (that square is
/// still included — a slider may capture there, but sees nothing beyond).
pub open spec fn atk_ray_from(prev: int, o: int, steps_left: int, blockers: u64) -> u64
    decreases steps_left,
{
    if steps_left <= 0 {
        0u64
    } else {
        let next = prev + o;
        if 0 <= next < 64 && spec_no_wrap(prev as u8, next as u8) {
            if bit64(blockers, next as u64) {
                1u64 << (next as u64)
            } else {
                (1u64 << (next as u64)) | atk_ray_from(next, o, steps_left - 1, blockers)
            }
        } else {
            0u64
        }
    }
}

/// Union of the attack rays of all listed offsets from square `sq`, each
/// walked at most seven steps — the longest ray an 8x8 board can hold.
pub open spec fn spec_moves(sq: int, offsets: Seq<i8>, blockers: u64) -> u64
    decreases offsets.len(),
{
    if offsets.len() == 0 {
        0u64
    } else {
        spec_moves(sq, offsets.drop_last(), blockers) | atk_ray_from(
            sq,
            offsets.last() as int,
            7,
            blockers,
        )
    }
}

/// On a fully occupied board every ray ends at its first step: the step
/// square is attacked (a capture) and nothing beyond it is.
pub proof fn lemma_full_occupancy_stops_rays(prev: int, o: int, steps_left: int)
    requires
        steps_left > 0,
        0 <= prev + o < 64,
        spec_no_wrap(prev as u8, (prev + o) as u8),
    ensures
        atk_ray_from(prev, o, steps_left, 0xFFFF_FFFF_FFFF_FFFFu64) == (1u64 << ((prev
            + o) as u64)),
{
    let next = (prev + o) as u64;
    assert(bit64(0xFFFF_FFFF_FFFF_FFFFu64, next)) by (bit_vector)
        requires
            next < 64,
    ;
}

/// Walks one attack ray over the given blocker pattern.
fn walk_attack_ray(sq: u8, o: i8, blockers: u64) -> (r: u64)
    requires
        sq < 64,
    ensures
        r == atk_ray_from(sq as int, o as int, 7, blockers),
{
    let mut acc: u64 = 0;
    let mut prev: i16 = sq as i16;
    let mut left: i16 = 7;
    proof {
        lemma_zero_or(atk_ray_from(sq as int, o as int, 7, blockers));
    }
    while left > 0
        invariant
            0 <= prev < 64,
            atk_ray_from(sq as int, o as int, 7, blockers) == acc | atk_ray_from(
                prev as int,
                o as int,
                left as int,
                blockers,
            ),
        decreases left,
    {
        let next: i16 = prev + (o as i16);
        if 0 <= next && next < 64 && no_wrap(prev as u8, next as u8) {
            if (blockers >> (next as u64)) & 1 == 1 {
                proof {
                    lemma_or_zero(acc | (1u64 << (next as u64)));
                }
                return acc | (1u64 << (next as u64));
            }
            proof {
                lemma_or_assoc(
                    acc,
                    1u64 << (next as u64),
                    atk_ray_from(next as int, o as int, left - 1, blockers),
                );
            }
            acc = acc | (1u64 << (next as u64));
            prev = next;
            left = left - 1;
        } else {
            proof {
                lemma_or_zero(acc);
            }
            return acc;
        }
    }
    proof {
        lemma_or_zero(acc);
    }
    acc
}

/// Computes the true attack bitboard of a slider on `sq` whose rays follow
/// `offsets`, over the blocker pattern `blockers`: each ray runs outward
/// until the board edge or the first blocker, which is included.
pub fn moves_with_blockers(sq: u8, offsets: &Vec<i8>, blockers: u64) -> (r: u64)
    requires
        sq < 64,
    ensures
        r == spec_moves(sq as int, offsets@, blockers),
{
    let mut acc: u64 = 0;
    let mut k: usize = 0;
    while k < offsets.len()
        invariant
            sq < 64,
            k <= offsets.len(),
            acc == spec_moves(sq as int, offsets@.subrange(0, k as int), blockers),
        decreases offsets.len() - k,
    {
        let o = offsets[k];
        let ray = walk_attack_ray(sq, o, blockers);
        proof {
            let pre = offsets@.subrange(0, k as int);
            let cur = offsets@.subrange(0, k as int + 1);
            assert(cur.drop_last() =~= pre);
            assert(cur.last() == offsets@[k as int]);
        }
        acc = acc | ray;
        k = k + 1;
    }
    proof {
        assert(offsets@.subrange(0, offsets@.len() as int) =~= offsets@);
    }
    acc
}

} // verus!
