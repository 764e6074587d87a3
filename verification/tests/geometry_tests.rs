use magics::geometry::no_wrap;
use magics::geometry::one_at;

#[test]
fn no_wrap_accepts_plain_steps() {
    // One file apart: a rook step east.
    assert!(no_wrap(0, 1));
    // Same file: a vertical step.
    assert!(no_wrap(8, 16));
    // Two files apart: a knight jump.
    assert!(no_wrap(0, 10));
}

#[test]
fn no_wrap_rejects_edge_wrap() {
    // h1 to a2 wraps around the board edge.
    assert!(!no_wrap(7, 8));
    // a-file to h-file in one step wraps the other way.
    assert!(!no_wrap(8, 7));
}

#[test]
fn one_at_sets_exactly_the_listed_bits() {
    assert_eq!(one_at(vec![]), 0);
    assert_eq!(one_at(vec![0]), 1);
    assert_eq!(one_at(vec![0, 5, 63]), 1 | (1 << 5) | (1u64 << 63));
    // A repeated square is set once.
    assert_eq!(one_at(vec![3, 3]), 1 << 3);
}
