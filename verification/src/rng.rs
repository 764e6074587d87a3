//! The crate's only tie to randomness: the PCG generator of `rand_pcg`,
//! drawn from through one trusted wrapper. The search engine never assumes
//! anything about the values drawn — a magic candidate is accepted only
//! after the verified check of every blocker subset.

use vstd::prelude::*;
use rand::Rng;

verus! {

#[verifier::external_type_specification]
#[verifier::external_body]
pub struct ExLcg128Xsl64(rand_pcg::Lcg128Xsl64);

/// Relies on rand's `Rng::random::<u64>`: one 64-bit draw that advances the
/// generator. Nothing is assumed of the value drawn — any `u64` may come
/// back, and two calls on equal states need not agree for the verifier.
#[verifier::external_body]
pub(crate) fn next_random_u64(rng: &mut rand_pcg::Pcg64) -> u64 {
    rng.random::<u64>()
}

} // verus!
