//! Magic-bitboard generation for 8x8 sliding-piece move tables.
//!
//! For every square of the board the crate computes the empty-board reach
//! of a piece (its premask), enumerates every blocker pattern over that
//! premask, computes the true attack set for each pattern by ray walking,
//! and searches for a "magic" multiplier that perfect-hashes the blocker
//! patterns into a small dense lookup table.

pub mod attacks;
pub mod bits;
pub mod blockers;
pub mod geometry;
pub mod magic;
pub mod premask;
pub mod rng;
pub mod tables;
