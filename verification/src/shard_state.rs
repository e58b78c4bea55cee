use crate::custom_types::{Gas, GasPrice, TransactionHash};
use crate::parameters::{
    BASE_FEE_MAX_CHANGE_DENOMINATOR, BLOCK_GAS_LIMIT, BLOCK_GAS_TARGET, MAX_GASPRICE,
    MIN_GASPRICE,
};
use crate::receipt::{Receipt, ReceiptView};
use std::collections::HashMap;
use vstd::prelude::*;

verus! {

/// What a shard knows after a slot: the base fee of the next block, and the
/// receipts of the slot.
pub struct ShardState {
    pub base_fee: GasPrice,
    pub receipts: HashMap<TransactionHash, Receipt>,
}

/// What a `ShardState` holds, as mathematical values.
pub struct ShardStateView {
    pub base_fee: GasPrice,
    pub receipts: Map<TransactionHash, ReceiptView>,
}

/// The views of a table of receipts.
pub open spec fn receipts_view(receipts: Map<TransactionHash, Receipt>) -> Map<
    TransactionHash,
    ReceiptView,
> {
    receipts.map_values(|r: Receipt| r@)
}

impl View for ShardState {
    type V = ShardStateView;

    open spec fn view(&self) -> ShardStateView {
        ShardStateView { base_fee: self.base_fee, receipts: receipts_view(self.receipts@) }
    }
}

/// By how much the base fee moves after a block that used `block_gas_used`:
/// an eighth of the previous fee at most, in proportion to the distance of
/// the gas used from the target. Both divisions round down, in this order.
pub open spec fn base_fee_delta(prev_base_fee: int, block_gas_used: int) -> int {
    let target = BLOCK_GAS_TARGET as int;
    let distance = if block_gas_used > target {
        block_gas_used - target
    } else {
        target - block_gas_used
    };
    prev_base_fee * distance / target / (BASE_FEE_MAX_CHANGE_DENOMINATOR as int)
}

/// The base fee after a block that used `block_gas_used`, when the fee
/// before it was `prev_base_fee`. Above the target it rises by the delta,
/// up to `MAX_GASPRICE`; else it falls by the delta, down to zero.
pub open spec fn next_base_fee(prev_base_fee: int, block_gas_used: int) -> int {
    let delta = base_fee_delta(prev_base_fee, block_gas_used);
    if block_gas_used > BLOCK_GAS_TARGET {
        if prev_base_fee + delta <= MAX_GASPRICE {
            prev_base_fee + delta
        } else {
            MAX_GASPRICE as int
        }
    } else {
        let floor = if prev_base_fee >= MIN_GASPRICE + delta {
            prev_base_fee
        } else {
            MIN_GASPRICE + delta
        };
        floor - delta
    }
}

/// Whether the update of the base fee stays within 128 bits at every step.
pub open spec fn base_fee_update_fits(prev_base_fee: int, block_gas_used: int) -> bool {
    let target = BLOCK_GAS_TARGET as int;
    if block_gas_used > target {
        &&& prev_base_fee * (block_gas_used - target) <= u128::MAX
        &&& prev_base_fee + base_fee_delta(prev_base_fee, block_gas_used) <= u128::MAX
    } else {
        prev_base_fee * (target - block_gas_used) <= u128::MAX
    }
}

impl ShardState {
    pub fn new(base_fee: GasPrice) -> (state: Self)
        ensures
            state@ == (ShardStateView { base_fee, receipts: Map::empty() }),
    {
        let state = Self { base_fee, receipts: HashMap::new() };
        assert(receipts_view(state.receipts@) =~= Map::empty());
        state
    }

    /// The base fee of the next block.
    pub fn compute_updated_gasprice(prev_base_fee: GasPrice, block_gas_used: Gas) -> (base_fee:
        GasPrice)
        requires
            base_fee_update_fits(prev_base_fee as int, block_gas_used as int),
        ensures
            base_fee == next_base_fee(prev_base_fee as int, block_gas_used as int),
    {
        if block_gas_used > BLOCK_GAS_TARGET {
            let delta = prev_base_fee * (block_gas_used - BLOCK_GAS_TARGET) / (
            BLOCK_GAS_TARGET as GasPrice) / (BASE_FEE_MAX_CHANGE_DENOMINATOR as GasPrice);
            if prev_base_fee + delta <= MAX_GASPRICE {
                prev_base_fee + delta
            } else {
                MAX_GASPRICE
            }
        } else {
            let delta = prev_base_fee * (BLOCK_GAS_TARGET - block_gas_used) / (
            BLOCK_GAS_TARGET as GasPrice) / (BASE_FEE_MAX_CHANGE_DENOMINATOR as GasPrice);
            let floor = if prev_base_fee >= MIN_GASPRICE + delta {
                prev_base_fee
            } else {
                MIN_GASPRICE + delta
            };
            floor - delta
        }
    }
}

/// The delta is never more than an eighth of the previous fee, for a block
/// within the gas limit.
pub proof fn lemma_base_fee_delta_bound(prev_base_fee: int, block_gas_used: int)
    requires
        0 <= prev_base_fee,
        0 <= block_gas_used <= BLOCK_GAS_LIMIT,
    ensures
        0 <= base_fee_delta(prev_base_fee, block_gas_used) <= prev_base_fee / 8,
{
    let target = BLOCK_GAS_TARGET as int;
    let distance: int = if block_gas_used > target {
        block_gas_used - target
    } else {
        target - block_gas_used
    };
    assert(0 <= distance <= target);
    assert(0 <= prev_base_fee * distance <= prev_base_fee * target) by (nonlinear_arith)
        requires
            0 <= distance <= target,
            0 <= prev_base_fee,
    ;
    assert(prev_base_fee * target / target == prev_base_fee) by (nonlinear_arith)
        requires
            target > 0,
    ;
    vstd::arithmetic::div_mod::lemma_div_is_ordered(
        prev_base_fee * distance,
        prev_base_fee * target,
        target,
    );
    vstd::arithmetic::div_mod::lemma_div_is_ordered(
        prev_base_fee * distance / target,
        prev_base_fee,
        8,
    );
    vstd::arithmetic::div_mod::lemma_div_is_ordered(0, prev_base_fee * distance, target);
    vstd::arithmetic::div_mod::lemma_div_is_ordered(0, prev_base_fee * distance / target, 8);
}

/// A block that uses exactly the target leaves the base fee as it was.
pub proof fn lemma_base_fee_unchanged_at_target(prev_base_fee: int)
    requires
        0 <= prev_base_fee,
    ensures
        base_fee_delta(prev_base_fee, BLOCK_GAS_TARGET as int) == 0,
        next_base_fee(prev_base_fee, BLOCK_GAS_TARGET as int) == prev_base_fee,
{
    assert(prev_base_fee * 0 == 0) by (nonlinear_arith);
}

/// An empty block lowers the base fee by an eighth of it, rounded down.
pub proof fn lemma_base_fee_after_empty_block(prev_base_fee: int)
    requires
        0 <= prev_base_fee,
    ensures
        base_fee_delta(prev_base_fee, 0) == prev_base_fee / 8,
        next_base_fee(prev_base_fee, 0) == prev_base_fee - prev_base_fee / 8,
{
    let target = BLOCK_GAS_TARGET as int;
    assert(prev_base_fee * target / target == prev_base_fee) by (nonlinear_arith)
        requires
            target > 0,
    ;
}

/// A full block raises the base fee by an eighth of it, rounded down, and
/// never above `MAX_GASPRICE`; below the cap the fee does not fall.
pub proof fn lemma_base_fee_after_full_block(prev_base_fee: int)
    requires
        0 <= prev_base_fee,
    ensures
        base_fee_delta(prev_base_fee, BLOCK_GAS_LIMIT as int) == prev_base_fee / 8,
        next_base_fee(prev_base_fee, BLOCK_GAS_LIMIT as int) == if prev_base_fee + prev_base_fee
            / 8 <= MAX_GASPRICE {
            prev_base_fee + prev_base_fee / 8
        } else {
            MAX_GASPRICE as int
        },
        prev_base_fee <= MAX_GASPRICE ==> prev_base_fee <= next_base_fee(
            prev_base_fee,
            BLOCK_GAS_LIMIT as int,
        ) <= MAX_GASPRICE,
{
    let target = BLOCK_GAS_TARGET as int;
    assert(prev_base_fee * target / target == prev_base_fee) by (nonlinear_arith)
        requires
            target > 0,
    ;
}

/// A fee that is at most `MAX_GASPRICE`, after a block within the gas
/// limit: the update stays within 128 bits, the new fee is at most
/// `MAX_GASPRICE` again, and below the target it is the old fee less the
/// delta.
pub proof fn lemma_base_fee_stays_bounded(prev_base_fee: int, block_gas_used: int)
    requires
        0 <= prev_base_fee <= MAX_GASPRICE,
        0 <= block_gas_used <= BLOCK_GAS_LIMIT,
    ensures
        base_fee_update_fits(prev_base_fee, block_gas_used),
        0 <= next_base_fee(prev_base_fee, block_gas_used) <= MAX_GASPRICE,
        block_gas_used <= BLOCK_GAS_TARGET ==> next_base_fee(prev_base_fee, block_gas_used)
            == prev_base_fee - base_fee_delta(prev_base_fee, block_gas_used),
{
    lemma_base_fee_delta_bound(prev_base_fee, block_gas_used);
    let target = BLOCK_GAS_TARGET as int;
    let distance: int = if block_gas_used > target {
        block_gas_used - target
    } else {
        target - block_gas_used
    };
    assert(0 <= prev_base_fee * distance <= 16_384_000_000_000 * 10_000_000) by (nonlinear_arith)
        requires
            0 <= prev_base_fee <= 16_384_000_000_000,
            0 <= distance <= 10_000_000,
    ;
}

/// The base fee after `blocks` blocks that each used `block_gas_used`.
pub open spec fn base_fee_after(prev_base_fee: int, block_gas_used: int, blocks: nat) -> int
    decreases blocks,
{
    if blocks == 0 {
        prev_base_fee
    } else {
        next_base_fee(
            base_fee_after(prev_base_fee, block_gas_used, (blocks - 1) as nat),
            block_gas_used,
        )
    }
}

/// Under full blocks a base fee that is at most `MAX_GASPRICE` never
/// falls, and never passes `MAX_GASPRICE`.
pub proof fn lemma_full_blocks_raise_base_fee(prev_base_fee: int, blocks: nat)
    requires
        0 <= prev_base_fee <= MAX_GASPRICE,
    ensures
        prev_base_fee <= base_fee_after(prev_base_fee, BLOCK_GAS_LIMIT as int, blocks)
            <= base_fee_after(prev_base_fee, BLOCK_GAS_LIMIT as int, blocks + 1) <= MAX_GASPRICE,
    decreases blocks,
{
    if blocks > 0 {
        lemma_full_blocks_raise_base_fee(prev_base_fee, (blocks - 1) as nat);
    }
    lemma_base_fee_after_full_block(base_fee_after(prev_base_fee, BLOCK_GAS_LIMIT as int, blocks));
}

/// Under empty blocks a base fee never rises, and never falls below zero.
pub proof fn lemma_empty_blocks_lower_base_fee(prev_base_fee: int, blocks: nat)
    requires
        0 <= prev_base_fee,
    ensures
        0 <= base_fee_after(prev_base_fee, 0, blocks + 1) <= base_fee_after(
            prev_base_fee,
            0,
            blocks,
        ) <= prev_base_fee,
        base_fee_after(prev_base_fee, 0, blocks + 1) == base_fee_after(prev_base_fee, 0, blocks)
            - base_fee_after(prev_base_fee, 0, blocks) / 8,
    decreases blocks,
{
    if blocks > 0 {
        lemma_empty_blocks_lower_base_fee(prev_base_fee, (blocks - 1) as nat);
    }
    lemma_base_fee_after_empty_block(base_fee_after(prev_base_fee, 0, blocks));
}

} // verus!
