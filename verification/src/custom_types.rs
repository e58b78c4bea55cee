use vstd::prelude::*;

verus! {

/// Logical time step.
pub type Slot = u64;

/// Group of slots.
pub type Epoch = u64;

/// Index of an account.
pub type Address = usize;

/// Amount of currency.
pub type Wei = u128;

/// Amount of gas.
pub type Gas = u128;

/// Price of one unit of gas, in wei.
pub type GasPrice = Wei;

/// Account nonce.
pub type Nonce = usize;

/// Hash that identifies a transaction.
pub type TransactionHash = u64;

/// Payload of a receipt.
pub type Data = String;

} // verus!
