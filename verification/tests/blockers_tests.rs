use magics::bits::popcount64;
use magics::blockers::gen_blockers;

#[test]
fn popcount_counts_set_bits() {
    assert_eq!(popcount64(0), 0);
    assert_eq!(popcount64(0b1011), 3);
    assert_eq!(popcount64(u64::MAX), 64);
    assert_eq!(popcount64(1u64 << 63), 1);
}

#[test]
fn gen_blockers_maps_counter_bits_onto_mask_bits() {
    // Mask has bits 1 and 3; counter bit 0 drives bit 1, counter bit 1 drives bit 3.
    let mask: u64 = 0b1010;
    assert_eq!(gen_blockers(mask, 0), 0);
    assert_eq!(gen_blockers(mask, 1), 0b0010);
    assert_eq!(gen_blockers(mask, 2), 0b1000);
    assert_eq!(gen_blockers(mask, 3), 0b1010);
}

#[test]
fn gen_blockers_is_deterministic() {
    let mask: u64 = 0x0101_0101_0101_0100;
    for counter in 0..256u64 {
        assert_eq!(gen_blockers(mask, counter), gen_blockers(mask, counter));
    }
}

#[test]
fn gen_blockers_enumerates_all_subsets_once() {
    // A mask with three scattered bits has exactly eight subsets.
    let mask: u64 = (1 << 0) | (1 << 4) | (1 << 9);
    let n: u64 = 1 << popcount64(mask);
    assert_eq!(n, 8);
    let subsets: Vec<u64> = (0..n).map(|c| gen_blockers(mask, c)).collect();
    for s in &subsets {
        // Each result is a subset of the mask.
        assert_eq!(s & !mask, 0);
    }
    for i in 0..subsets.len() {
        for j in 0..i {
            // No two counters draw the same subset.
            assert_ne!(subsets[i], subsets[j]);
        }
    }
    // Eight distinct subsets of a three-bit mask: every subset appears.
}

#[test]
fn empty_premask_has_one_blocker_subset() {
    // Every counter draws the empty subset from an empty premask.
    assert_eq!(popcount64(0), 0);
    for counter in [0u64, 1, 7, u64::MAX] {
        assert_eq!(gen_blockers(0, counter), 0);
    }
}
