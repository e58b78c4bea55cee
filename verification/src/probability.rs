use crate::parameters::GLOBAL_TRANSACTION_NUM;
use vstd::prelude::*;

verus! {

/// How often something is expected to happen in a slot, in units of
/// 2^-32. The value may be above one: it is then a rate.
pub type Probability = u64;

/// The probability one.
pub const PROBABILITY_ONE: Probability = 4_294_967_296;

/// The highest probability that a transfer can have: all the transfers
/// that the chain is offered in a slot.
pub const MAX_PROBABILITY: Probability = 129_957_120_442_368;

/// The part of `amount` that is expected at probability `p`, rounded down.
pub open spec fn expected_share(amount: int, p: Probability) -> int {
    amount * p / (PROBABILITY_ONE as int)
}

/// Whether a number drawn from the 32-bit range, taken as a fraction of
/// the highest such number, is above the probability `p`.
pub open spec fn draw_is_above(draw: u32, p: Probability) -> bool {
    draw * PROBABILITY_ONE > p * u32::MAX
}

/// The probability of a transfer of weight `weight`, where all transfers
/// together have the weight `total`: its share of the transfers that the
/// chain is offered in a slot. Without any weight there is no transfer.
pub open spec fn normalized_probability(weight: int, total: int) -> int {
    if total <= 0 {
        0
    } else {
        weight * GLOBAL_TRANSACTION_NUM * PROBABILITY_ONE / total
    }
}

/// The part of `amount` that is expected at probability `p`.
pub fn share_of(amount: u128, p: Probability) -> (share: u128)
    requires
        amount * p <= u128::MAX,
    ensures
        share == expected_share(amount as int, p),
{
    amount * (p as u128) / (PROBABILITY_ONE as u128)
}

/// Whether the draw, as a fraction, is above the probability `p`.
pub fn draw_exceeds(draw: u32, p: Probability) -> (above: bool)
    ensures
        above == draw_is_above(draw, p),
{
    assert(draw * PROBABILITY_ONE <= 0xffff_ffff * 4_294_967_296) by (nonlinear_arith)
        requires
            draw <= 0xffff_ffff,
            PROBABILITY_ONE == 4_294_967_296,
    ;
    assert(p * u32::MAX <= 0xffff_ffff_ffff_ffff * 0xffff_ffff) by (nonlinear_arith)
        requires
            p <= 0xffff_ffff_ffff_ffff,
            u32::MAX == 0xffff_ffff,
    ;
    (draw as u128) * (PROBABILITY_ONE as u128) > (p as u128) * (u32::MAX as u128)
}

/// The probability of a transfer of weight `weight` among transfers of
/// the weight `total` together.
pub fn normalize(weight: u64, total: u128) -> (p: Probability)
    requires
        weight <= total,
    ensures
        p == normalized_probability(weight as int, total as int),
        p <= MAX_PROBABILITY,
{
    if total == 0 {
        return 0;
    }
    assert(weight * GLOBAL_TRANSACTION_NUM * PROBABILITY_ONE <= 0xffff_ffff_ffff_ffff * 30_258
        * 4_294_967_296) by (nonlinear_arith)
        requires
            weight <= 0xffff_ffff_ffff_ffff,
            GLOBAL_TRANSACTION_NUM == 30_258,
            PROBABILITY_ONE == 4_294_967_296,
    ;
    let scaled: u128
        = (weight as u128) * (GLOBAL_TRANSACTION_NUM as u128) * (PROBABILITY_ONE as u128);
    proof {
        let full: int = total as int * 30_258 * 4_294_967_296;
        assert(scaled <= full) by (nonlinear_arith)
            requires
                scaled == weight * 30_258 * 4_294_967_296,
                weight <= total,
                full == total as int * 30_258 * 4_294_967_296,
        ;
        assert(full == 129_957_120_442_368int * total) by (nonlinear_arith)
            requires
                full == total as int * 30_258 * 4_294_967_296,
        ;
        vstd::arithmetic::div_mod::lemma_div_is_ordered(scaled as int, full, total as int);
        vstd::arithmetic::div_mod::lemma_div_multiples_vanish(
            129_957_120_442_368int,
            total as int,
        );
    }
    (scaled / total) as u64
}

} // verus!
