use crate::custom_types::{Gas, Slot};
use crate::transaction::{Transaction, TransactionView};
use vstd::prelude::*;

verus! {

/// The block that a shard makes in one slot.
pub struct ShardBlock {
    pub executed_transactions: Vec<Transaction>,
    pub gas_used: Gas,
    pub number: Slot,
}

/// What a `ShardBlock` holds, as mathematical values.
pub struct ShardBlockView {
    pub executed_transactions: Seq<TransactionView>,
    pub gas_used: Gas,
    pub number: Slot,
}

/// The views of a sequence of transactions.
pub open spec fn transactions_view(transactions: Seq<Transaction>) -> Seq<TransactionView> {
    transactions.map_values(|t: Transaction| t@)
}

/// Viewing commutes with appending a transaction.
pub proof fn lemma_transactions_view_push(transactions: Seq<Transaction>, transaction: Transaction)
    ensures
        transactions_view(transactions.push(transaction)) == transactions_view(transactions).push(
            transaction@,
        ),
{
    assert(transactions_view(transactions.push(transaction)) =~= transactions_view(
        transactions,
    ).push(transaction@));
}

impl View for ShardBlock {
    type V = ShardBlockView;

    open spec fn view(&self) -> ShardBlockView {
        ShardBlockView {
            executed_transactions: transactions_view(self.executed_transactions@),
            gas_used: self.gas_used,
            number: self.number,
        }
    }
}

impl ShardBlockView {
    /// The block with number `number` and nothing in it.
    pub open spec fn empty(number: Slot) -> ShardBlockView {
        ShardBlockView { executed_transactions: Seq::empty(), gas_used: 0, number }
    }
}

impl ShardBlock {
    pub fn new(number: Slot) -> (block: Self)
        ensures
            block@ == ShardBlockView::empty(number),
    {
        let block = Self { executed_transactions: Vec::new(), gas_used: 0, number };
        assert(transactions_view(block.executed_transactions@) =~= Seq::empty());
        block
    }
}

impl Clone for ShardBlock {
    fn clone(&self) -> (copy: Self)
        ensures
            copy@ == self@,
    {
        let mut executed_transactions: Vec<Transaction> = Vec::new();
        let mut i: usize = 0;
        while i < self.executed_transactions.len()
            invariant
                i <= self.executed_transactions.len(),
                transactions_view(executed_transactions@) == transactions_view(
                    self.executed_transactions@,
                ).take(i as int),
            decreases self.executed_transactions.len() - i,
        {
            let transaction = self.executed_transactions[i].clone();
            proof {
                lemma_transactions_view_push(executed_transactions@, transaction);
                let all = transactions_view(self.executed_transactions@);
                assert(all.take(i + 1) =~= all.take(i as int).push(transaction@));
            }
            executed_transactions.push(transaction);
            i = i + 1;
        }
        assert(transactions_view(self.executed_transactions@).take(i as int)
            =~= transactions_view(self.executed_transactions@));
        ShardBlock { executed_transactions, gas_used: self.gas_used, number: self.number }
    }
}

} // verus!
