use magics::attacks::moves_with_blockers;
use magics::blockers::gen_blockers;
use magics::bits::popcount64;
use magics::magic::find_magic;
use magics::magic::try_magic;
use magics::magic::update_best;
use magics::magic::MagicEntry;
use magics::premask::mask_from_offset;
use magics::premask::rook_offsets;
use magics::tables::init_movemasks;
use magics::tables::square_tables;
use rand::SeedableRng;
use rand_pcg::Pcg64;

fn magic_slot(premask: u64, blocker: u64, magic: u64, shift: u32) -> usize {
    ((premask & blocker).wrapping_mul(magic) >> (64 - shift)) as usize
}

#[test]
fn square_32_tables_match_independent_computation() {
    let offsets = rook_offsets();
    let premask = mask_from_offset(&offsets, 8)[32];
    let (blockers, attacks) = square_tables(32, premask, &offsets);
    assert_eq!(blockers.len(), 1 << 14);
    assert_eq!(attacks.len(), blockers.len());
    // Entry 100 round-trips through independent computation.
    assert_eq!(blockers[100], gen_blockers(premask, 100));
    assert_eq!(blockers[100] & !premask, 0);
    assert_eq!(attacks[100], moves_with_blockers(32, &offsets, blockers[100]));
}

#[test]
fn tables_of_empty_premasks_hold_one_entry_each() {
    let offsets = rook_offsets();
    let premasks = vec![0u64; 64];
    let (all_blockers, all_attacks) = init_movemasks(&premasks, &offsets);
    assert_eq!(all_blockers.len(), 64);
    assert_eq!(all_attacks.len(), 64);
    for sq in 0..64usize {
        assert_eq!(all_blockers[sq], vec![0u64]);
        assert_eq!(all_attacks[sq], vec![moves_with_blockers(sq as u8, &offsets, 0)]);
    }
}

#[test]
fn try_magic_fills_the_table_on_success() {
    // An empty premask has a single blocker subset; any multiplier works.
    let table = try_magic(0, &vec![0], &vec![42], 12345, 1).expect("single subset must fit");
    assert_eq!(table.len(), 2);
    let idx = magic_slot(0, 0, 12345, 1);
    assert_eq!(table[idx], Some(42));
}

#[test]
fn try_magic_rejects_a_value_changing_collision() {
    // Multiplier zero sends both subsets to slot zero with different attacks.
    let premask: u64 = 0b11;
    assert!(try_magic(premask, &vec![1, 2], &vec![10, 20], 0, 4).is_none());
}

#[test]
fn try_magic_accepts_a_benign_collision() {
    // Same slot, same attack value: the collision changes nothing.
    let premask: u64 = 0b11;
    let table = try_magic(premask, &vec![1, 2], &vec![10, 10], 0, 4).expect("benign collision");
    assert_eq!(table[0], Some(10));
}

#[test]
fn update_best_never_regresses_to_a_wider_table() {
    let mut best: Option<MagicEntry> = None;
    update_best(&mut best, 111, 13);
    assert_eq!(best, Some(MagicEntry { magic: 111, shift: 13 }));
    // A wider-table entry must not replace the recorded one.
    update_best(&mut best, 222, 14);
    assert_eq!(best, Some(MagicEntry { magic: 111, shift: 13 }));
    // A narrower one does.
    update_best(&mut best, 333, 12);
    assert_eq!(best, Some(MagicEntry { magic: 333, shift: 12 }));
}

#[test]
fn find_magic_with_no_tries_reports_failure() {
    let mut rng = Pcg64::seed_from_u64(1);
    assert!(find_magic(0, &vec![0], &vec![0], &mut rng, 0, 14, 12).is_none());
}

#[test]
fn find_magic_with_an_empty_shift_range_reports_failure() {
    let mut rng = Pcg64::seed_from_u64(2);
    assert!(find_magic(0, &vec![0], &vec![5], &mut rng, 5, 12, 12).is_none());
}

#[test]
fn find_magic_on_a_small_mask_yields_a_consistent_hash() {
    let offsets = rook_offsets();
    let premask: u64 = (1 << 1) | (1 << 2) | (1 << 3);
    let n: u64 = 1 << popcount64(premask);
    let blockers: Vec<u64> = (0..n).map(|c| gen_blockers(premask, c)).collect();
    let attacks: Vec<u64> = blockers.iter().map(|b| moves_with_blockers(0, &offsets, *b)).collect();
    let mut rng = Pcg64::seed_from_u64(7);
    let entry = find_magic(premask, &blockers, &attacks, &mut rng, 10000, 8, 4)
        .expect("eight subsets must hash into sixteen slots");
    assert!(entry.shift >= 4 && entry.shift < 8);
    // Replay the accepted multiplier: collisions must be value-consistent.
    let mut slots: Vec<Option<u64>> = vec![None; 1 << entry.shift];
    for (b, a) in blockers.iter().zip(attacks.iter()) {
        let idx = magic_slot(premask, *b, entry.magic, entry.shift);
        match slots[idx] {
            None => slots[idx] = Some(*a),
            Some(prev) => assert_eq!(prev, *a),
        }
    }
}

#[test]
fn accepted_magic_rebuilds_a_correct_lookup_table() {
    let offsets = rook_offsets();
    let premask: u64 = (1 << 8) | (1 << 16) | (1 << 24) | (1 << 1);
    let n: u64 = 1 << popcount64(premask);
    let blockers: Vec<u64> = (0..n).map(|c| gen_blockers(premask, c)).collect();
    let attacks: Vec<u64> = blockers.iter().map(|b| moves_with_blockers(0, &offsets, *b)).collect();
    let mut rng = Pcg64::seed_from_u64(11);
    let entry = find_magic(premask, &blockers, &attacks, &mut rng, 10000, 9, 5)
        .expect("sixteen subsets must hash into at least thirty-two slots");
    // An accepted magic always rebuilds its table, and every subset's slot
    // holds that subset's true attack set.
    let table = try_magic(premask, &blockers, &attacks, entry.magic, entry.shift)
        .expect("the accepted multiplier must check out again");
    assert_eq!(table.len(), 1usize << entry.shift);
    for (b, a) in blockers.iter().zip(attacks.iter()) {
        assert_eq!(table[magic_slot(premask, *b, entry.magic, entry.shift)], Some(*a));
    }
}

#[test]
fn find_magic_on_empty_premask_succeeds_at_the_floor() {
    let mut rng = Pcg64::seed_from_u64(3);
    let entry = find_magic(0, &vec![0], &vec![99], &mut rng, 100, 14, 12)
        .expect("an empty premask cannot fail");
    assert_eq!(entry.shift, 12);
}
