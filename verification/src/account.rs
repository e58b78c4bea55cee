use crate::custom_types::{Address, Wei};
use vstd::prelude::*;

verus! {

/// An account, held by exactly one shard at a time.
#[derive(Clone, Copy, Debug)]
pub struct Account {
    pub addr: Address,
    pub shard_id: usize,
    pub balance: Wei,
}

impl Account {
    /// Balance that every account starts with.
    pub open spec fn initial_balance() -> Wei {
        (u128::MAX / 10) as u128
    }

    pub fn new(addr: Address, shard_id: usize) -> (account: Self)
        ensures
            account == (Account { addr, shard_id, balance: Self::initial_balance() }),
    {
        Self { addr, shard_id, balance: Wei::MAX / 10 }
    }
}

} // verus!
