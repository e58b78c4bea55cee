use crate::custom_types::{Address, Gas, GasPrice, Nonce, Slot};
use vstd::prelude::*;

verus! {

pub const SLOTS_PER_EPOCH: Slot = 32;

pub const SHARD_NUM: usize = 64;

// Base-fee controller.
pub const BLOCK_GAS_TARGET: Gas = 10_000_000;

pub const BLOCK_GAS_LIMIT: Gas = 20_000_000;

pub const INITIAL_BASE_FEE: GasPrice = 1_000_000_000;

pub const BASE_FEE_MAX_CHANGE_DENOMINATOR: usize = 8;

pub const MAX_GASPRICE: GasPrice = 16_384_000_000_000;

pub const MIN_GASPRICE: GasPrice = 0;

pub const MEMPOOL_TRANSACTION_NUM: usize = 10_000;

// Gas cost of each kind of function.
pub const GAS_TRANSFER: Gas = 21_000;

pub const GAS_CREATE_CROSS_TRANSFER: Gas = 31_785;

pub const GAS_APPLY_CROSS_TRANSFER: Gas = 52_820;

pub const GAS_CREATE_CROSS_TRANSFER_ALL: Gas = 31_785;

pub const GAS_APPLY_CROSS_TRANSFER_ALL: Gas = 52_820;

// Simulation defaults.
pub const DEFAULT_END_SLOT: Slot = 100;

pub const DEFAULT_USER_NUM: usize = 10000;

pub const INITIAL_SETUP_SLOTS: Slot = 10;

// User behaviour.
pub const AVERAGE_SHARD_SWITCHING_INTERVAL: Slot = 100;

pub const DEFAULT_GAS_PREMIUM: GasPrice = 1_000_000_000;

/// Transfers that the whole chain is offered per slot: twice the global gas
/// target, divided by the mean gas of a cross-shard transfer leg.
pub const GLOBAL_TRANSACTION_NUM: usize = 30_258;

// Random user graph.
pub const MAX_FEE_CAP: GasPrice = 200_000_000_000;

pub const MAX_TARGET_USER_NUM: usize = 15;

pub const POPULAR_USER_ADDRESS: Address = 0;

pub const RAND_SEED: u64 = 1337;

/// Nonce of a queued transaction until it is sent.
pub const DUMMY_NONCE: Nonce = 1337;

} // verus!
