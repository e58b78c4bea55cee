use rand::seq::SliceRandom;
use rand_core::{RngCore, SeedableRng};
use rand_xorshift::XorShiftRng;
use vstd::prelude::*;

verus! {

/// The xorshift generator of `rand_xorshift`, opaque to the verifier.
#[verifier::external_type_specification]
#[verifier::external_body]
pub struct ExXorShiftRng(XorShiftRng);

/// Calls `XorShiftRng::seed_from_u64`. Nothing is claimed of the generator.
#[verifier::external_body]
pub(crate) fn seeded_rng(seed: u64) -> (rng: XorShiftRng) {
    XorShiftRng::seed_from_u64(seed)
}

/// Calls `next_u32` on the generator. Nothing is claimed of the number.
#[verifier::external_body]
pub(crate) fn next_u32(rng: &mut XorShiftRng) -> (draw: u32) {
    rng.next_u32()
}

/// Calls `next_u64` on the generator. Nothing is claimed of the number.
#[verifier::external_body]
pub(crate) fn next_u64(rng: &mut XorShiftRng) -> (draw: u64) {
    rng.next_u64()
}

/// Calls `shuffle` of `rand` on the numbers. Trusted: the call swaps items
/// in place, so the same numbers are there afterwards, each as often as
/// before.
#[verifier::external_body]
pub(crate) fn shuffle(numbers: &mut Vec<usize>, rng: &mut XorShiftRng)
    ensures
        final(numbers)@.to_multiset() == old(numbers)@.to_multiset(),
{
    numbers.shuffle(rng);
}

} // verus!
