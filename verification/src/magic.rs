//! Magic search engine: for a square's blocker and attack tables, find a
//! 64-bit multiplier and a shift such that
//! `((premask & blocker) * multiplier) >> (64 - shift)` maps every blocker
//! subset into a table of `2^shift` slots without a value-changing
//! collision. Candidates are random draws; acceptance is a verified check.

use vstd::prelude::*;
use vstd::arithmetic::power2::pow2;
use vstd::bits::lemma_u64_pow2_no_overflow;
use vstd::bits::lemma_u64_shl_is_mul;
use crate::bits::popcount;
use crate::bits::popcount64;
use crate::blockers::spec_blockers;
use crate::attacks::spec_moves;
use crate::premask::rays_mask;
use crate::premask::rook_dirs;
use crate::premask::rook_offsets;
use crate::premask::mask_from_offset;
use crate::tables::square_tables;
use crate::rng::next_random_u64;

verus! {

/// Widest table the search starts from: `2^14` slots.
pub const START_SHIFT: u32 = 14;

/// Narrowest table the search will try: `2^12` slots.
pub const FLOOR_SHIFT: u32 = 12;

/// Candidate multipliers tried per shift before giving up.
pub const MAGIC_TRIES: u64 = 100000;

/// An accepted magic for one square: the multiplier and the table width.
#[derive(Clone, Copy, PartialEq, Eq, Structural, Debug)]
pub struct MagicEntry {
    pub magic: u64,
    pub shift: u32,
}

/// The slot that the magic hash sends a blocker pattern to.
pub open spec fn magic_index(premask: u64, blocker: u64, magic: u64, shift: u32) -> u64
    recommends
        1 <= shift <= 63,
{
    (premask & blocker).wrapping_mul(magic) >> ((64 - shift) as u64)
}

/// A multiplier works for a square when no two blocker subsets that need
/// different attack sets share a slot: every collision is value-consistent.
pub open spec fn magic_ok(
    premask: u64,
    blockers: Seq<u64>,
    attacks: Seq<u64>,
    magic: u64,
    shift: u32,
) -> bool {
    forall|i: int, j: int|
        0 <= i < blockers.len() && 0 <= j < blockers.len() && magic_index(
            premask,
            blockers[i],
            magic,
            shift,
        ) == magic_index(premask, blockers[j], magic, shift) ==> attacks[i] == attacks[j]
}

/// Every magic index lands inside the table: below `2^shift`.
pub proof fn lemma_magic_index_bound(premask: u64, blocker: u64, magic: u64, shift: u32)
    requires
        1 <= shift <= 63,
    ensures
        magic_index(premask, blocker, magic, shift) < pow2(shift as nat),
{
    let m = (premask & blocker).wrapping_mul(magic);
    let s: u64 = shift as u64;
    assert(m >> ((64 - s) as u64) < (1u64 << s)) by (bit_vector)
        requires
            1 <= s <= 63,
    ;
    lemma_u64_pow2_no_overflow(shift as nat);
    lemma_u64_shl_is_mul(1u64, s);
}

/// Checks one candidate multiplier against every blocker subset, filling a
/// fresh table of `2^shift` slots. Slots hold `Option` values, so an unused
/// slot is never mistaken for a stored all-zero attack set. A slot is
/// written on first use; a reuse
/// is accepted only when it already holds the same attack set. Returns the
/// filled table exactly when the candidate works — `Some` if and only if
/// `magic_ok` holds — and in the table every blocker subset's slot holds
/// its true attack set.
pub fn try_magic(
    premask: u64,
    blockers: &Vec<u64>,
    attacks: &Vec<u64>,
    magic: u64,
    shift: u32,
) -> (r: Option<Vec<Option<u64>>>)
    requires
        blockers@.len() == attacks@.len(),
        1 <= shift <= 24,
    ensures
        r is Some <==> magic_ok(premask, blockers@, attacks@, magic, shift),
        r matches Some(table) ==> {
            &&& table@.len() == pow2(shift as nat)
            &&& forall|i: int|
                0 <= i < blockers@.len() ==> magic_index(premask, blockers@[i], magic, shift)
                    < table@.len() && table@[magic_index(premask, blockers@[i], magic, shift) as int]
                    == Some(attacks@[i])
        },
{
    proof {
        lemma_u64_pow2_no_overflow(shift as nat);
        lemma_u64_shl_is_mul(1u64, shift as u64);
    }
    let n: u64 = 1u64 << (shift as u64);
    let mut table: Vec<Option<u64>> = Vec::new();
    let mut k: u64 = 0;
    while k < n
        invariant
            k <= n,
            table@.len() == k,
            forall|s: int| 0 <= s < k ==> table@[s] is None,
        decreases n - k,
    {
        table.push(None);
        k = k + 1;
    }
    let mut i: usize = 0;
    while i < blockers.len()
        invariant
            blockers@.len() == attacks@.len(),
            i <= blockers@.len(),
            1 <= shift <= 24,
            table@.len() == pow2(shift as nat),
            table@.len() == n,
            n == 1u64 << (shift as u64),
            forall|j: int|
                0 <= j < i ==> #[trigger] magic_index(premask, blockers@[j], magic, shift)
                    < table@.len() && table@[magic_index(premask, blockers@[j], magic, shift) as int]
                    == Some(attacks@[j]),
            forall|s: int|
                0 <= s < table@.len() && #[trigger] table@[s] is Some ==> exists|j: int|
                    #[trigger] magic_index(premask, blockers@[j], magic, shift) == s && 0 <= j < i
                        && table@[s] == Some(attacks@[j]),
        decreases blockers@.len() - i,
    {
        let b = blockers[i];
        proof {
            lemma_magic_index_bound(premask, b, magic, shift);
            let s64: u64 = shift as u64;
            assert(1u64 << s64 <= 0x1000000u64) by (bit_vector)
                requires
                    s64 <= 24,
            ;
        }
        let idx_wide: u64 = (premask & b).wrapping_mul(magic) >> ((64 - shift) as u64);
        let idx: usize = idx_wide as usize;
        proof {
            assert(idx_wide == magic_index(premask, b, magic, shift));
            assert(idx_wide < table@.len());
        }
        let a = attacks[i];
        match table[idx] {
            None => {
                table[idx] = Some(a);
            },
            Some(v) => {
                if v != a {
                    proof {
                        let s = magic_index(premask, b, magic, shift) as int;
                        let j = choose|j: int|
                            magic_index(premask, blockers@[j], magic, shift) == s && 0 <= j < i
                                && table@[s] == Some(attacks@[j]);
                        assert(attacks@[j] != attacks@[i as int]);
                        assert(!magic_ok(premask, blockers@, attacks@, magic, shift));
                    }
                    return None;
                }
            },
        }
        proof {
            assert(magic_index(premask, blockers@[i as int], magic, shift) == idx_wide);
            assert(table@[idx_wide as int] == Some(attacks@[i as int]));
        }
        i = i + 1;
    }
    proof {
        assert forall|i2: int, j2: int|
            0 <= i2 < blockers@.len() && 0 <= j2 < blockers@.len() && magic_index(
                premask,
                blockers@[i2],
                magic,
                shift,
            ) == magic_index(premask, blockers@[j2], magic, shift) implies attacks@[i2]
            == attacks@[j2] by {
            let s = magic_index(premask, blockers@[i2], magic, shift) as int;
            assert(table@[s] == Some(attacks@[i2]));
            assert(table@[s] == Some(attacks@[j2]));
        }
    }
    Some(table)
}

/// Records a magic found at `shift` into the per-square best entry, keeping
/// whichever entry has the narrower table. The recorded shift never grows:
/// once a magic stands at some shift, no later call can regress the entry
/// to a wider table.
pub fn update_best(best: &mut Option<MagicEntry>, magic: u64, shift: u32)
    ensures
        (*final(best)) is Some,
        (*old(best)) is None ==> *final(best) == Some(MagicEntry { magic, shift }),
        (*old(best)) matches Some(e) ==> {
            &&& (*final(best)) matches Some(f) && f.shift <= e.shift && f.shift <= shift
            &&& (*final(best) == *old(best) || *final(best) == Some(MagicEntry { magic, shift }))
        },
{
    let replace: bool = match best {
        None => true,
        Some(e) => shift < e.shift,
    };
    if replace {
        *best = Some(MagicEntry { magic, shift });
    }
}

/// Searches one square: shifts from `start_shift - 1` down to
/// `floor_shift`, each round drawing up to `tries` candidate multipliers
/// (three draws ANDed together, to favour sparse candidates). A round that
/// succeeds records its entry and the search tightens by one; a round that
/// exhausts its tries ends the search with the last success, if any. A
/// returned entry always carries a verified multiplier: `magic_ok` holds
/// for it. `None` means no candidate ever worked — a reportable failure,
/// never a made-up entry. Whether a draw works is chance; but a table of at
/// most one blocker subset accepts every multiplier, so there success is
/// owed: the search must reach the floor. With no tries, or no shift round
/// between floor and start, nothing is searched and `None` is owed.
pub fn find_magic(
    premask: u64,
    blockers: &Vec<u64>,
    attacks: &Vec<u64>,
    rng: &mut rand_pcg::Pcg64,
    tries: u64,
    start_shift: u32,
    floor_shift: u32,
) -> (r: Option<MagicEntry>)
    requires
        blockers@.len() == attacks@.len(),
        1 <= floor_shift <= start_shift <= 24,
    ensures
        r matches Some(e) ==> floor_shift <= e.shift < start_shift && magic_ok(
            premask,
            blockers@,
            attacks@,
            e.magic,
            e.shift,
        ),
        tries == 0 || floor_shift == start_shift ==> r is None,
        blockers@.len() <= 1 && tries >= 1 && floor_shift < start_shift ==> (r matches Some(e)
            && e.shift == floor_shift),
{
    let mut best: Option<MagicEntry> = None;
    let mut shift: u32 = start_shift;
    while shift > floor_shift
        invariant
            blockers@.len() == attacks@.len(),
            1 <= floor_shift <= shift <= start_shift <= 24,
            best matches Some(e) ==> shift <= e.shift < start_shift && magic_ok(
                premask,
                blockers@,
                attacks@,
                e.magic,
                e.shift,
            ),
            tries == 0 ==> best is None,
            blockers@.len() <= 1 && tries >= 1 && shift < start_shift ==> (best matches Some(e)
                && e.shift == shift),
        decreases shift,
    {
        let cur: u32 = shift - 1;
        let mut t: u64 = 0;
        let mut found = false;
        while t < tries && !found
            invariant
                blockers@.len() == attacks@.len(),
                1 <= floor_shift <= cur < shift <= start_shift <= 24,
                best matches Some(e) ==> cur <= e.shift < start_shift && magic_ok(
                    premask,
                    blockers@,
                    attacks@,
                    e.magic,
                    e.shift,
                ),
                found ==> (best matches Some(e) && e.shift == cur),
                tries == 0 ==> best is None,
                blockers@.len() <= 1 && tries >= 1 ==> (found || t == 0),
            decreases tries - t, (if found {
                0int
            } else {
                1int
            }),
        {
            let d1 = next_random_u64(rng);
            let d2 = next_random_u64(rng);
            let d3 = next_random_u64(rng);
            let magic = d1 & d2 & d3;
            match try_magic(premask, blockers, attacks, magic, cur) {
                Some(_) => {
                    update_best(&mut best, magic, cur);
                    found = true;
                },
                None => {
                    proof {
                        if blockers@.len() <= 1 {
                            assert(magic_ok(premask, blockers@, attacks@, magic, cur));
                            assert(false);
                        }
                    }
                    t = t + 1;
                },
            }
        }
        if !found {
            return best;
        }
        shift = cur;
    }
    best
}

/// Empty-board rook reach of a square.
pub open spec fn rook_premask_spec(sq: int) -> u64 {
    rays_mask(sq, rook_dirs(), 8)
}

/// The complete blocker-subset table of a square's rook premask.
pub open spec fn rook_blockers_spec(sq: int) -> Seq<u64> {
    Seq::new(
        pow2(popcount(rook_premask_spec(sq))),
        |i: int| spec_blockers(rook_premask_spec(sq), i as u64),
    )
}

/// The true rook attack set for each entry of the blocker-subset table.
pub open spec fn rook_attacks_spec(sq: int) -> Seq<u64> {
    Seq::new(
        pow2(popcount(rook_premask_spec(sq))),
        |i: int| spec_moves(sq, rook_dirs(), spec_blockers(rook_premask_spec(sq), i as u64)),
    )
}

/// The whole rook pipeline: premasks, per-square blocker and attack tables,
/// then the magic search square by square. Entry `sq` of the result is the
/// accepted magic of square `sq`, or `None` where no candidate succeeded —
/// each square's failure is surfaced on its own, never papered over.
pub fn find_rook_magics(rng: &mut rand_pcg::Pcg64, tries: u64) -> (r: Vec<Option<MagicEntry>>)
    ensures
        r@.len() == 64,
        forall|sq: int|
            0 <= sq < 64 ==> (#[trigger] r@[sq] matches Some(e) ==> FLOOR_SHIFT <= e.shift < START_SHIFT
                && magic_ok(
                rook_premask_spec(sq),
                rook_blockers_spec(sq),
                rook_attacks_spec(sq),
                e.magic,
                e.shift,
            )),
{
    let offsets = rook_offsets();
    let premasks = mask_from_offset(&offsets, 8);
    let mut result: Vec<Option<MagicEntry>> = Vec::new();
    let mut sq: u8 = 0;
    while sq < 64
        invariant
            offsets@ =~= rook_dirs(),
            premasks@.len() == 64,
            forall|s: int| 0 <= s < 64 ==> premasks@[s] == rook_premask_spec(s),
            result@.len() == sq,
            sq <= 64,
            forall|s: int|
                0 <= s < sq ==> (#[trigger] result@[s] matches Some(e) ==> FLOOR_SHIFT <= e.shift
                    < START_SHIFT && magic_ok(
                    rook_premask_spec(s),
                    rook_blockers_spec(s),
                    rook_attacks_spec(s),
                    e.magic,
                    e.shift,
                )),
        decreases 64 - sq,
    {
        let premask = premasks[sq as usize];
        let pc = popcount64(premask);
        if pc < 32 {
            let (blockers, attacks) = square_tables(sq, premask, &offsets);
            let found = find_magic(
                premask,
                &blockers,
                &attacks,
                rng,
                tries,
                START_SHIFT,
                FLOOR_SHIFT,
            );
            proof {
                assert(blockers@ =~= rook_blockers_spec(sq as int));
                assert(attacks@ =~= rook_attacks_spec(sq as int));
            }
            result.push(found);
        } else {
            result.push(None);
        }
        sq = sq + 1;
    }
    result
}

} // verus!
