use magics::attacks::moves_with_blockers;
use magics::premask::mask_from_offset;
use magics::premask::rook_offsets;

/// Independent ray walk over rank/file coordinates, kept deliberately apart
/// from the library's bit-offset arithmetic.
fn rook_attack_reference(sq: i32, blockers: u64) -> u64 {
    let mut acc: u64 = 0;
    for (dr, df) in [(0i32, 1i32), (0, -1), (1, 0), (-1, 0)] {
        let mut r = sq / 8;
        let mut f = sq % 8;
        loop {
            r += dr;
            f += df;
            if r < 0 || r > 7 || f < 0 || f > 7 {
                break;
            }
            let s = (8 * r + f) as u64;
            acc |= 1 << s;
            if (blockers >> s) & 1 == 1 {
                break;
            }
        }
    }
    acc
}

#[test]
fn open_board_attacks_equal_premask() {
    let masks = mask_from_offset(&rook_offsets(), 8);
    let offsets = rook_offsets();
    for sq in 0..64u8 {
        // With no blockers a rook attacks exactly its empty-board reach.
        assert_eq!(moves_with_blockers(sq, &offsets, 0), masks[sq as usize]);
    }
}

#[test]
fn attacks_match_reference_ray_walk() {
    let offsets = rook_offsets();
    for sq in [0u8, 7, 27, 32, 63] {
        for blockers in [0u64, 0x00FF_0000_0000_FF00, 0x8100_0000_0000_0081, 0x0000_0010_0800_0000] {
            assert_eq!(
                moves_with_blockers(sq, &offsets, blockers),
                rook_attack_reference(sq as i32, blockers)
            );
        }
    }
}

#[test]
fn full_occupancy_stops_every_ray_at_first_step() {
    let offsets = rook_offsets();
    // From d4 on a fully occupied board only the four neighbours are hit.
    let expected = (1u64 << 28) | (1 << 26) | (1 << 35) | (1 << 19);
    assert_eq!(moves_with_blockers(27, &offsets, u64::MAX), expected);
    // From a1: the two neighbours.
    assert_eq!(moves_with_blockers(0, &offsets, u64::MAX), (1 << 1) | (1 << 8));
}

#[test]
fn blocker_square_is_included_but_nothing_beyond() {
    let offsets = rook_offsets();
    // Rook on a1, lone blocker on a4: file ray is 8, 16, 24 and stops.
    let blockers = 1u64 << 24;
    let moves = moves_with_blockers(0, &offsets, blockers);
    let file_part = (1u64 << 8) | (1 << 16) | (1 << 24);
    let rank_part = (1u64 << 1) | (1 << 2) | (1 << 3) | (1 << 4) | (1 << 5) | (1 << 6) | (1 << 7);
    assert_eq!(moves, file_part | rank_part);
}
