//! Premask builder: the squares a piece reaches from each square of an
//! empty board, one 64-bit mask per square.
//!
//! A ray starts at a square and repeats one direction offset up to a step
//! bound; it ends at the first step that would leave the board vertically
//! or wrap around it horizontally. Sliders (rook, bishop) use the full step
//! bound; knight and king use a single step per offset, the offset list
//! spelling out every jump.
//!
//! The premask keeps the outermost ring: every square a slider reaches on
//! an empty board counts as relevant occupancy. A rook premask therefore
//! always holds fourteen squares, which bounds every blocker-subset table
//! at `2^14` entries.

use vstd::prelude::*;
use crate::geometry::spec_no_wrap;
use crate::geometry::no_wrap;
use crate::bits::lemma_or_zero;
use crate::bits::lemma_or_assoc;

verus! {

/// Squares collected by walking from `prev` in direction `o` for at most
/// `steps_left` further steps, stopping at the board edge. The starting
/// square itself is not included.
pub open spec fn ray_from(prev: int, o: int, steps_left: int) -> u64
    decreases steps_left,
{
    if steps_left <= 0 {
        0u64
    } else {
        let next = prev + o;
        if 0 <= next < 64 && spec_no_wrap(prev as u8, next as u8) {
            (1u64 << (next as u64)) | ray_from(next, o, steps_left - 1)
        } else {
            0u64
        }
    }
}

/// Union of the rays of all listed offsets from square `sq`.
pub open spec fn rays_mask(sq: int, offsets: Seq<i8>, steps: int) -> u64
    decreases offsets.len(),
{
    if offsets.len() == 0 {
        0u64
    } else {
        rays_mask(sq, offsets.drop_last(), steps) | ray_from(sq, offsets.last() as int, steps)
    }
}

/// Walks a single ray, accumulating one bit per accepted step.
fn walk_ray(sq: u8, o: i8, steps: i8) -> (r: u64)
    requires
        sq < 64,
    ensures
        r == ray_from(sq as int, o as int, steps as int),
{
    let mut acc: u64 = 0;
    let mut prev: i16 = sq as i16;
    let mut left: i16 = steps as i16;
    proof {
        crate::bits::lemma_zero_or(ray_from(sq as int, o as int, steps as int));
    }
    while left > 0
        invariant
            0 <= prev < 64,
            ray_from(sq as int, o as int, steps as int) == acc | ray_from(
                prev as int,
                o as int,
                left as int,
            ),
        decreases left,
    {
        let next: i16 = prev + (o as i16);
        if 0 <= next && next < 64 && no_wrap(prev as u8, next as u8) {
            proof {
                lemma_or_assoc(acc, 1u64 << (next as u64), ray_from(next as int, o as int, left - 1));
            }
            acc = acc | (1u64 << (next as u64));
            prev = next;
            left = left - 1;
        } else {
            proof {
                lemma_or_zero(acc);
            }
            return acc;
        }
    }
    proof {
        lemma_or_zero(acc);
    }
    acc
}

/// For each of the 64 squares, unions the rays of every offset, each walked
/// for at most `max_steps` steps: the empty-board reach of the piece whose
/// moves the offsets describe.
pub fn mask_from_offset(offsets: &Vec<i8>, max_steps: i8) -> (r: Vec<u64>)
    ensures
        r@.len() == 64,
        forall|sq: int|
            0 <= sq < 64 ==> r@[sq] == rays_mask(sq, offsets@, max_steps as int),
{
    let mut masks: Vec<u64> = Vec::new();
    let mut sq: u8 = 0;
    while sq < 64
        invariant
            sq <= 64,
            masks@.len() == sq,
            forall|s: int|
                0 <= s < sq ==> masks@[s] == rays_mask(s, offsets@, max_steps as int),
        decreases 64 - sq,
    {
        let mut acc: u64 = 0;
        let mut k: usize = 0;
        while k < offsets.len()
            invariant
                sq < 64,
                k <= offsets.len(),
                acc == rays_mask(sq as int, offsets@.subrange(0, k as int), max_steps as int),
            decreases offsets.len() - k,
        {
            let o = offsets[k];
            let ray = walk_ray(sq, o, max_steps);
            proof {
                let pre = offsets@.subrange(0, k as int);
                let cur = offsets@.subrange(0, k as int + 1);
                assert(cur.drop_last() =~= pre);
                assert(cur.last() == offsets@[k as int]);
            }
            acc = acc | ray;
            k = k + 1;
        }
        proof {
            assert(offsets@.subrange(0, offsets@.len() as int) =~= offsets@);
        }
        masks.push(acc);
        sq = sq + 1;
    }
    masks
}

/// Rook ray directions: east, west, north, south.
pub open spec fn rook_dirs() -> Seq<i8> {
    seq![1i8, -1i8, 8i8, -8i8]
}

/// Bishop ray directions: the four diagonals.
pub open spec fn bishop_dirs() -> Seq<i8> {
    seq![7i8, 9i8, -7i8, -9i8]
}

/// Rook ray directions, as a list for the builders.
pub fn rook_offsets() -> (r: Vec<i8>)
    ensures
        r@ =~= rook_dirs(),
{
    let mut v: Vec<i8> = Vec::new();
    v.push(1);
    v.push(-1);
    v.push(8);
    v.push(-8);
    v
}

/// Bishop ray directions, as a list for the builders.
pub fn bishop_offsets() -> (r: Vec<i8>)
    ensures
        r@ =~= bishop_dirs(),
{
    let mut v: Vec<i8> = Vec::new();
    v.push(7);
    v.push(9);
    v.push(-7);
    v.push(-9);
    v
}

/// Knight jumps, one offset per jump; used with a single step.
pub fn knight_offsets() -> (r: Vec<i8>)
    ensures
        r@ =~= seq![6i8, 10i8, 15i8, 17i8, -6i8, -10i8, -15i8, -17i8],
{
    let mut v: Vec<i8> = Vec::new();
    v.push(6);
    v.push(10);
    v.push(15);
    v.push(17);
    v.push(-6);
    v.push(-10);
    v.push(-15);
    v.push(-17);
    v
}

/// King steps, one offset per neighbouring square; used with a single step.
pub fn king_offsets() -> (r: Vec<i8>)
    ensures
        r@ =~= seq![1i8, -1i8, 8i8, -8i8, 7i8, 9i8, -7i8, -9i8],
{
    let mut v: Vec<i8> = Vec::new();
    v.push(1);
    v.push(-1);
    v.push(8);
    v.push(-8);
    v.push(7);
    v.push(9);
    v.push(-7);
    v.push(-9);
    v
}

/// Builds the slider premask tables: rook first, bishop second, each a
/// 64-entry table of empty-board reaches with eight steps per ray.
pub fn init_piecemask() -> (r: (Vec<u64>, Vec<u64>))
    ensures
        r.0@.len() == 64,
        r.1@.len() == 64,
        forall|sq: int| 0 <= sq < 64 ==> r.0@[sq] == rays_mask(sq, rook_dirs(), 8),
        forall|sq: int| 0 <= sq < 64 ==> r.1@[sq] == rays_mask(sq, bishop_dirs(), 8),
{
    let rook = mask_from_offset(&rook_offsets(), 8);
    let bishop = mask_from_offset(&bishop_offsets(), 8);
    (rook, bishop)
}

} // verus!
