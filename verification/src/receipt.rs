use crate::custom_types::{Address, Data, Gas, Slot, TransactionHash};
use crate::transaction::Transaction;
use vstd::prelude::*;

verus! {

/// What running a transaction on a shard left behind.
#[derive(Debug)]
pub struct Receipt {
    pub slot_number: Slot,
    pub from: Address,
    pub to: Address,
    pub gas_used: Gas,
    pub status: bool,
    pub transaction_hash: TransactionHash,
    pub data: Data,
}

/// What a `Receipt` holds, with its payload as a sequence of characters.
pub struct ReceiptView {
    pub slot_number: Slot,
    pub from: Address,
    pub to: Address,
    pub gas_used: Gas,
    pub status: bool,
    pub transaction_hash: TransactionHash,
    pub data: Seq<char>,
}

impl View for Receipt {
    type V = ReceiptView;

    open spec fn view(&self) -> ReceiptView {
        ReceiptView {
            slot_number: self.slot_number,
            from: self.from,
            to: self.to,
            gas_used: self.gas_used,
            status: self.status,
            transaction_hash: self.transaction_hash,
            data: self.data@,
        }
    }
}

/// The view of a receipt that may be absent.
pub open spec fn receipt_option_view(receipt: Option<Receipt>) -> Option<ReceiptView> {
    match receipt {
        Some(r) => Some(r@),
        None => None,
    }
}

impl Clone for Receipt {
    fn clone(&self) -> (copy: Self)
        ensures
            copy == *self,
    {
        Receipt {
            slot_number: self.slot_number,
            from: self.from,
            to: self.to,
            gas_used: self.gas_used,
            status: self.status,
            transaction_hash: self.transaction_hash,
            data: self.data.clone(),
        }
    }
}

impl Receipt {
    pub fn new(
        slot_number: Slot,
        transaction: &Transaction,
        gas_used: Gas,
        status: bool,
        data: Data,
    ) -> (receipt: Self)
        ensures
            receipt == (Receipt {
                slot_number,
                from: transaction.from,
                to: transaction.to,
                gas_used,
                status,
                transaction_hash: transaction.hash,
                data,
            }),
    {
        Self {
            slot_number,
            from: transaction.from,
            to: transaction.to,
            gas_used,
            status,
            transaction_hash: transaction.hash,
            data,
        }
    }
}

} // verus!
