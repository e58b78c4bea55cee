use crate::custom_types::Wei;
use vstd::prelude::*;

verus! {

/// One row of a table of historic transactions.
#[derive(Debug)]
pub struct TransactionRecord {
    pub nonce: u64,
    pub transaction_index: u64,
    pub from_address: String,
    pub to_address: String,
    pub value: Wei,
    pub gas: u64,
    pub gas_price: u64,
    pub receipt_cumulative_gas_used: u64,
    pub receipt_gas_used: u64,
    pub receipt_contract_address: String,
    pub receipt_root: String,
    pub receipt_status: u64,
    pub block_timestamp: String,
    pub block_number: u64,
}

} // verus!
