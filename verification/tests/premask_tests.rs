use magics::premask::bishop_offsets;
use magics::premask::init_piecemask;
use magics::premask::king_offsets;
use magics::premask::knight_offsets;
use magics::premask::mask_from_offset;
use magics::premask::rook_offsets;
use magics::bits::popcount64;

#[test]
fn rook_premask_of_square_32_spans_file_and_rank() {
    let masks = mask_from_offset(&rook_offsets(), 8);
    // Square 32 sits on the a-file: its premask is the rest of that file
    // plus the rest of its rank, and never its own bit.
    let mut expected: u64 = 0;
    for rank in 0..8u64 {
        if rank != 4 {
            expected |= 1 << (8 * rank);
        }
    }
    for file in 1..8u64 {
        expected |= 1 << (32 + file);
    }
    assert_eq!(masks[32], expected);
    assert_eq!(masks[32] & (1 << 32), 0);
}

#[test]
fn rook_premask_has_fourteen_squares_everywhere() {
    let masks = mask_from_offset(&rook_offsets(), 8);
    assert_eq!(masks.len(), 64);
    for sq in 0..64 {
        // Seven squares along the rank, seven along the file.
        assert_eq!(popcount64(masks[sq]), 14);
    }
}

#[test]
fn bishop_premask_of_center_square() {
    let masks = mask_from_offset(&bishop_offsets(), 8);
    let expected: u64 = [36u64, 45, 54, 63, 34, 41, 48, 20, 13, 6, 18, 9, 0]
        .iter()
        .fold(0, |acc, s| acc | (1 << s));
    assert_eq!(masks[27], expected);
}

#[test]
fn init_piecemask_returns_rook_then_bishop() {
    let (rook, bishop) = init_piecemask();
    assert_eq!(rook, mask_from_offset(&rook_offsets(), 8));
    assert_eq!(bishop, mask_from_offset(&bishop_offsets(), 8));
}

#[test]
fn knight_premask_of_corner() {
    let masks = mask_from_offset(&knight_offsets(), 1);
    // From a1 only b3 and c2 stay on the board.
    assert_eq!(masks[0], (1 << 17) | (1 << 10));
}

#[test]
fn king_premask_of_corner() {
    let masks = mask_from_offset(&king_offsets(), 1);
    // From a1: a2, b1, b2.
    assert_eq!(masks[0], (1 << 8) | (1 << 1) | (1 << 9));
}

#[test]
fn zero_steps_gives_empty_premasks() {
    let masks = mask_from_offset(&rook_offsets(), 0);
    for sq in 0..64 {
        assert_eq!(masks[sq], 0);
    }
}
