//! The random source behind plate generation, and the few draws taken
//! from it. Every draw depends on chance, so each contract states only what
//! holds of every outcome.

use rand::seq::IndexedRandom;
use rand::Rng;
use rand::rngs::ThreadRng;
use vstd::prelude::*;

verus! {

/// The thread-local generator of the `rand` crate, carried through opaque.
#[verifier::external_type_specification]
#[verifier::external_body]
pub struct ExThreadRng(ThreadRng);

/// `IndexedRandom::choose` on a slice of characters: `None` for an empty
/// slice, otherwise one of its elements (chosen uniformly).
#[verifier::external_body]
pub(crate) fn choose_char(pool: &[char], rng: &mut ThreadRng) -> (r: Option<char>)
    ensures
        r is None <==> pool@.len() == 0,
        r matches Some(c) ==> pool@.contains(c),
{
    pool.choose(rng).copied()
}

/// `Rng::random_range` over `0..n`: an index below `n` (uniformly). The
/// call panics on an empty range, which `requires` leaves out.
#[verifier::external_body]
pub(crate) fn random_below(rng: &mut ThreadRng, n: usize) -> (r: usize)
    requires
        n > 0,
    ensures
        r < n,
{
    rng.random_range(0..n)
}

/// `Rng::random_ratio`: `true` with probability `numerator/denominator`;
/// always `true` when the two are equal and always `false` for a zero
/// numerator. The call panics on a zero denominator or a numerator above
/// it, which `requires` leaves out.
#[verifier::external_body]
pub(crate) fn random_ratio(rng: &mut ThreadRng, numerator: u32, denominator: u32) -> (r: bool)
    requires
        0 < denominator,
        numerator <= denominator,
    ensures
        numerator == denominator ==> r,
        numerator == 0 ==> !r,
{
    rng.random_ratio(numerator, denominator)
}

/// `Rng::random::<u64>`: any 64-bit value.
#[verifier::external_body]
pub(crate) fn random_u64(rng: &mut ThreadRng) -> u64 {
    rng.random::<u64>()
}

} // verus!
