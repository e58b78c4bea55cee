use crate::custom_types::{Address, GasPrice, Slot, Wei};
use crate::environment::EnvironmentView;
use crate::function::{FunctionType, FunctionView};
use crate::shard::ShardView;
use crate::simulator::Simulator;
use crate::transaction::{Transaction, TransactionView};
use crate::user::{StrategyType, UserView};
use vstd::prelude::*;

verus! {

/// What a user has paid and done over a run.
#[derive(Clone, Copy, Debug)]
pub struct UserRecord {
    pub addr: Address,
    /// The place of the strategy of the user among the strategies.
    pub strategy: usize,
    pub total_fee: Wei,
    pub transaction_num: u64,
}

impl StrategyType {
    /// The place of the strategy among the strategies.
    pub open spec fn spec_ordinal(self) -> usize {
        match self {
            StrategyType::NonSwitcher => 0,
            StrategyType::WeightedRandom => 1,
            StrategyType::Minimum => 2,
            StrategyType::DecreasingMinimum => 3,
        }
    }

    /// The place of the strategy among the strategies.
    pub fn ordinal(&self) -> (place: usize)
        ensures
            place == self.spec_ordinal(),
    {
        match self {
            StrategyType::NonSwitcher => 0,
            StrategyType::WeightedRandom => 1,
            StrategyType::Minimum => 2,
            StrategyType::DecreasingMinimum => 3,
        }
    }
}

impl FunctionType {
    /// The place of the kind among the kinds of function.
    pub open spec fn spec_ordinal(self) -> usize {
        match self {
            FunctionType::Transfer => 0,
            FunctionType::CreateCrossTransfer => 1,
            FunctionType::ApplyCrossTransfer => 2,
            FunctionType::CreateCrossTransferAll => 3,
            FunctionType::ApplyCrossTransferAll => 4,
        }
    }

    /// The place of the kind among the kinds of function.
    pub fn ordinal(&self) -> (place: usize)
        ensures
            place == self.spec_ordinal(),
            place < 5,
    {
        match self {
            FunctionType::Transfer => 0,
            FunctionType::CreateCrossTransfer => 1,
            FunctionType::ApplyCrossTransfer => 2,
            FunctionType::CreateCrossTransferAll => 3,
            FunctionType::ApplyCrossTransferAll => 4,
        }
    }
}

/// Whether every shard has a block for each of the first `duration` slots.
pub open spec fn has_run_for(environment: EnvironmentView, duration: Slot) -> bool {
    forall|i: int|
        0 <= i < environment.blockchain.shards.len() ==> (
        #[trigger] environment.blockchain.shards[i]).blocks.len() >= duration
            && environment.blockchain.shards[i].states.len() > duration
}

/// What the transactions of a block weigh together, where `weigh` gives
/// the weight of a transaction in a block with the given base fee.
pub open spec fn block_total(
    transactions: Seq<TransactionView>,
    base_fee: GasPrice,
    weigh: spec_fn(TransactionView, GasPrice) -> int,
) -> int
    decreases transactions.len(),
{
    if transactions.len() == 0 {
        0
    } else {
        block_total(transactions.drop_last(), base_fee, weigh) + weigh(
            transactions.last(),
            base_fee,
        )
    }
}

/// What the transactions of the blocks of `shards` for the slot `slot`
/// weigh together.
pub open spec fn slot_total(
    shards: Seq<ShardView>,
    slot: int,
    weigh: spec_fn(TransactionView, GasPrice) -> int,
) -> int
    decreases shards.len(),
{
    if shards.len() == 0 {
        0
    } else {
        slot_total(shards.drop_last(), slot, weigh) + block_total(
            shards.last().blocks[slot].executed_transactions,
            shards.last().states[slot].base_fee,
            weigh,
        )
    }
}

/// What the transactions of the blocks of `shards` for the slots below
/// `slots` weigh together.
pub open spec fn run_total(
    shards: Seq<ShardView>,
    slots: int,
    weigh: spec_fn(TransactionView, GasPrice) -> int,
) -> int
    decreases slots,
{
    if slots <= 0 {
        0
    } else {
        run_total(shards, slots - 1, weigh) + slot_total(shards, slots - 1, weigh)
    }
}

/// Whether no transaction has a weight below zero.
pub open spec fn never_negative(weigh: spec_fn(TransactionView, GasPrice) -> int) -> bool {
    forall|transaction: TransactionView, base_fee: GasPrice| #[trigger]
        weigh(transaction, base_fee) >= 0
}

/// The first transactions of a block weigh no more than the block.
pub proof fn lemma_block_total_grows(
    transactions: Seq<TransactionView>,
    base_fee: GasPrice,
    weigh: spec_fn(TransactionView, GasPrice) -> int,
    k: int,
)
    requires
        never_negative(weigh),
        0 <= k <= transactions.len(),
    ensures
        0 <= block_total(transactions.take(k), base_fee, weigh) <= block_total(
            transactions,
            base_fee,
            weigh,
        ),
    decreases transactions.len(),
{
    if transactions.len() == 0 {
        assert(transactions.take(k) =~= transactions);
    } else if k == transactions.len() {
        assert(transactions.take(k) =~= transactions);
        lemma_block_total_grows(transactions.drop_last(), base_fee, weigh, k - 1);
        assert(weigh(transactions.last(), base_fee) >= 0);
        assert(transactions.drop_last().take(k - 1) =~= transactions.drop_last());
    } else {
        lemma_block_total_grows(transactions.drop_last(), base_fee, weigh, k);
        assert(transactions.drop_last().take(k) =~= transactions.take(k));
        assert(weigh(transactions.last(), base_fee) >= 0);
    }
}

/// The blocks of the first shards weigh no more than those of all shards.
pub proof fn lemma_slot_total_grows(
    shards: Seq<ShardView>,
    slot: int,
    weigh: spec_fn(TransactionView, GasPrice) -> int,
    i: int,
)
    requires
        never_negative(weigh),
        0 <= i <= shards.len(),
    ensures
        0 <= slot_total(shards.take(i), slot, weigh) <= slot_total(shards, slot, weigh),
    decreases shards.len(),
{
    if shards.len() == 0 {
        assert(shards.take(i) =~= shards);
    } else {
        let block = shards.last().blocks[slot].executed_transactions;
        lemma_block_total_grows(block, shards.last().states[slot].base_fee, weigh,
            block.len() as int);
        assert(block.take(block.len() as int) =~= block);
        if i == shards.len() {
            assert(shards.take(i) =~= shards);
            lemma_slot_total_grows(shards.drop_last(), slot, weigh, i - 1);
        } else {
            lemma_slot_total_grows(shards.drop_last(), slot, weigh, i);
            assert(shards.drop_last().take(i) =~= shards.take(i));
        }
    }
}

/// The blocks of the first slots weigh no more than those of more slots.
pub proof fn lemma_run_total_grows(
    shards: Seq<ShardView>,
    slots: int,
    weigh: spec_fn(TransactionView, GasPrice) -> int,
    upto: int,
)
    requires
        never_negative(weigh),
        0 <= upto <= slots,
    ensures
        0 <= run_total(shards, upto, weigh) <= run_total(shards, slots, weigh),
    decreases slots,
{
    if slots > 0 {
        lemma_slot_total_grows(shards, slots - 1, weigh, shards.len() as int);
        assert(shards.take(shards.len() as int) =~= shards);
        if upto < slots {
            lemma_run_total_grows(shards, slots - 1, weigh, upto);
        } else {
            lemma_run_total_grows(shards, slots - 1, weigh, upto - 1);
        }
    }
}

/// What a part of a run weighs: the blocks of the slots below `slot`, of
/// the first `i` shards for the slot `slot`, and the first `k`
/// transactions of the block of the next shard.
pub open spec fn partial_total(
    shards: Seq<ShardView>,
    slot: int,
    i: int,
    k: int,
    weigh: spec_fn(TransactionView, GasPrice) -> int,
) -> int {
    run_total(shards, slot, weigh) + slot_total(shards.take(i), slot, weigh) + block_total(
        shards[i].blocks[slot].executed_transactions.take(k),
        shards[i].states[slot].base_fee,
        weigh,
    )
}

/// A part of a run weighs no more than the run.
pub proof fn lemma_partial_total(
    shards: Seq<ShardView>,
    slots: int,
    slot: int,
    i: int,
    k: int,
    weigh: spec_fn(TransactionView, GasPrice) -> int,
)
    requires
        never_negative(weigh),
        0 <= slot < slots,
        0 <= i < shards.len(),
        0 <= k <= shards[i].blocks[slot].executed_transactions.len(),
    ensures
        0 <= partial_total(shards, slot, i, k, weigh) <= run_total(shards, slots, weigh),
{
    let block = shards[i].blocks[slot].executed_transactions;
    let base_fee = shards[i].states[slot].base_fee;
    lemma_block_total_grows(block, base_fee, weigh, k);
    lemma_slot_total_grows(shards, slot, weigh, i + 1);
    lemma_slot_total_grows(shards.take(i + 1), slot, weigh, i);
    assert(shards.take(i + 1).take(i) =~= shards.take(i));
    assert(shards.take(i + 1).drop_last() =~= shards.take(i));
    assert(shards.take(i + 1).last() == shards[i]);
    lemma_run_total_grows(shards, slot, weigh, slot);
    lemma_run_total_grows(shards, slots, weigh, slot + 1);
}

/// The fee that the report books for a transaction in a block with the
/// given base fee: the gas of its first function at the base fee.
pub open spec fn booked_fee(transaction: TransactionView, base_fee: GasPrice) -> int {
    base_fee * transaction.functions[0].ftype.spec_gas()
}

/// The weight that books the fee of the transactions of `addr`.
pub open spec fn fee_of(addr: Address) -> spec_fn(TransactionView, GasPrice) -> int {
    |transaction: TransactionView, base_fee: GasPrice|
        if transaction.from == addr {
            booked_fee(transaction, base_fee)
        } else {
            0
        }
}

/// The weight that counts the transactions of `addr`.
pub open spec fn one_for(addr: Address) -> spec_fn(TransactionView, GasPrice) -> int {
    |transaction: TransactionView, base_fee: GasPrice|
        if transaction.from == addr {
            1int
        } else {
            0int
        }
}

/// Whether the report can book every transaction of the first `duration`
/// slots: each has a function, and its sender is one of the users.
pub open spec fn can_be_booked(environment: EnvironmentView, duration: Slot) -> bool {
    forall|slot: int, i: int, k: int|
        0 <= slot < duration && 0 <= i < environment.blockchain.shards.len() && 0 <= k
            < environment.blockchain.shards[i].blocks[slot].executed_transactions.len() ==> {
            let transaction =
                #[trigger] environment.blockchain.shards[i].blocks[slot].executed_transactions[k];
            transaction.functions.len() > 0 && transaction.from < environment.users.len()
        }
}

/// Whether the report on the users can be made for the first `duration`
/// slots: every transaction can be booked, and the totals of every user
/// fit their fields.
pub open spec fn users_can_be_reported(environment: EnvironmentView, duration: Slot) -> bool {
    &&& can_be_booked(environment, duration)
    &&& forall|u: int|
        0 <= u < environment.users.len() ==> #[trigger] run_total(
            environment.blockchain.shards,
            duration as int,
            fee_of(u as usize),
        ) <= u128::MAX
    &&& forall|u: int|
        0 <= u < environment.users.len() ==> #[trigger] run_total(
            environment.blockchain.shards,
            duration as int,
            one_for(u as usize),
        ) <= u64::MAX
}

/// The record of the user `u` over the first `duration` slots.
pub open spec fn user_record(environment: EnvironmentView, duration: Slot, u: int) -> UserRecord {
    UserRecord {
        addr: environment.users[u].account_addr,
        strategy: environment.users[u].user_type.spec_ordinal(),
        total_fee: run_total(environment.blockchain.shards, duration as int,
            fee_of(u as usize)) as Wei,
        transaction_num: run_total(
            environment.blockchain.shards,
            duration as int,
            one_for(u as usize),
        ) as u64,
    }
}

impl Simulator {
    /// For each slot of the run, the base fee of every shard at the start
    /// of the slot.
    pub fn base_fee_records(&self) -> (rows: Vec<Vec<GasPrice>>)
        requires
            self.duration <= usize::MAX,
            has_run_for(self.environment@, self.duration),
        ensures
            rows.len() == self.duration,
            forall|slot: int, shard_id: int|
                0 <= slot < self.duration && 0 <= shard_id
                    < self.environment@.blockchain.shards.len() ==> (#[trigger] rows[slot]).len()
                    == self.environment@.blockchain.shards.len() && rows[slot][shard_id]
                    == (#[trigger]
                        self.environment@.blockchain.shards[shard_id]).states[slot].base_fee,
            forall|slot: int|
                0 <= slot < self.duration ==> (#[trigger] rows[slot]).len()
                    == self.environment@.blockchain.shards.len(),
    {
        let ghost chain = self.environment@.blockchain;
        let mut rows: Vec<Vec<GasPrice>> = Vec::new();
        let mut slot: usize = 0;
        while slot < self.duration as usize
            invariant
                slot <= self.duration,
                self.duration <= usize::MAX,
                chain == self.environment@.blockchain,
                has_run_for(self.environment@, self.duration),
                rows.len() == slot,
                forall|s: int|
                    0 <= s < slot ==> (#[trigger] rows[s]).len() == chain.shards.len(),
                forall|s: int, shard_id: int|
                    0 <= s < slot && 0 <= shard_id < chain.shards.len()
                        ==> (#[trigger] rows[s])[shard_id]
                        == (#[trigger] chain.shards[shard_id]).states[s].base_fee,
            decreases self.duration - slot,
        {
            let mut record: Vec<GasPrice> = Vec::new();
            let mut shard_id: usize = 0;
            while shard_id < self.environment.blockchain.shards.len()
                invariant
                    shard_id <= self.environment.blockchain.shards.len(),
                    slot < self.duration,
                    chain == self.environment@.blockchain,
                    has_run_for(self.environment@, self.duration),
                    record.len() == shard_id,
                    forall|i: int|
                        0 <= i < shard_id
                            ==> #[trigger] record[i]
                            == chain.shards[i].states[slot as int].base_fee,
                decreases self.environment.blockchain.shards.len() - shard_id,
            {
                proof {
                    let shard = chain.shards[shard_id as int];
                    assert(shard.states.len() > self.duration);
                    assert(shard.states[slot as int]
                        == self.environment.blockchain.shards[shard_id as int].states[slot as
                            int]@);
                }
                record.push(self.environment.blockchain.shards[shard_id].states[slot].base_fee);
                shard_id = shard_id + 1;
            }
            rows.push(record);
            slot = slot + 1;
        }
        rows
    }

    /// For each slot of the run, the number of settled accounts on every
    /// shard after the slot.
    pub fn active_user_num_records(&self) -> (rows: Vec<Vec<usize>>)
        requires
            self.duration <= self.environment@.user_num_mem.len(),
        ensures
            rows.len() == self.duration,
            forall|slot: int|
                0 <= slot < self.duration ==> (#[trigger] rows[slot])@
                    == self.environment@.user_num_mem[slot],
    {
        copy_rows(&self.environment.user_num_mem, self.duration)
    }

    /// For each slot of the run, the size of the mempool of every shard
    /// after the slot.
    pub fn mempool_records(&self) -> (rows: Vec<Vec<usize>>)
        requires
            self.duration <= self.environment@.mempool_tx_mem.len(),
        ensures
            rows.len() == self.duration,
            forall|slot: int|
                0 <= slot < self.duration ==> (#[trigger] rows[slot])@
                    == self.environment@.mempool_tx_mem[slot],
    {
        copy_rows(&self.environment.mempool_tx_mem, self.duration)
    }
}

/// Neither the weight that books fees nor the one that counts is ever
/// below zero.
pub proof fn lemma_weights_never_negative(addr: Address)
    ensures
        never_negative(fee_of(addr)),
        never_negative(one_for(addr)),
{
    assert forall|transaction: TransactionView, base_fee: GasPrice| #[trigger]
        fee_of(addr)(transaction, base_fee) >= 0 by {
        let gas = transaction.functions[0].ftype.spec_gas();
        assert(base_fee * gas >= 0) by (nonlinear_arith)
            requires
                base_fee >= 0,
                gas >= 0,
        ;
    }
}

/// Whether the transaction at the place `k` of the block of the shard `i`
/// for the slot `slot` has a function and a user for its sender.
pub open spec fn is_booked(environment: EnvironmentView, slot: int, i: int, k: int) -> bool {
    let transaction = environment.blockchain.shards[i].blocks[slot].executed_transactions[k];
    transaction.functions.len() > 0 && transaction.from < environment.users.len()
}

impl Simulator {
    /// For each user its address, its strategy, the fees that were booked
    /// for its transactions over the run, and their number; nothing if a
    /// transaction cannot be booked or a total does not fit its field.
    pub fn users_records(&self) -> (rows: Option<Vec<UserRecord>>)
        requires
            self.duration <= usize::MAX,
            has_run_for(self.environment@, self.duration),
        ensures
            rows is Some <==> users_can_be_reported(self.environment@, self.duration),
            rows matches Some(records) ==> records.len() == self.environment@.users.len()
                && forall|u: int|
                0 <= u < records.len() ==> #[trigger] records[u] == user_record(
                    self.environment@,
                    self.duration,
                    u,
                ),
    {
        let ghost environment = self.environment@;
        let ghost shards = environment.blockchain.shards;
        let user_num = self.environment.users.len();
        let mut total_fee: Vec<Wei> = Vec::new();
        let mut transaction_num: Vec<u64> = Vec::new();
        let mut u: usize = 0;
        while u < user_num
            invariant
                u <= user_num,
                total_fee.len() == u,
                transaction_num.len() == u,
                forall|v: int| 0 <= v < u ==> #[trigger] total_fee[v] == 0,
                forall|v: int| 0 <= v < u ==> #[trigger] transaction_num[v] == 0,
            decreases user_num - u,
        {
            total_fee.push(0);
            transaction_num.push(0);
            u = u + 1;
        }
        let mut slot: usize = 0;
        while slot < self.duration as usize
            invariant
                slot <= self.duration <= usize::MAX,
                environment == self.environment@,
                shards == environment.blockchain.shards,
                has_run_for(environment, self.duration),
                user_num == environment.users.len(),
                total_fee.len() == user_num,
                transaction_num.len() == user_num,
                forall|s: int, i: int, k: int|
                    0 <= s < slot && 0 <= i < shards.len() && 0 <= k
                        < shards[i].blocks[s].executed_transactions.len() ==> #[trigger] is_booked(
                        environment,
                        s,
                        i,
                        k,
                    ),
                forall|v: int|
                    0 <= v < user_num ==> #[trigger] total_fee[v] == run_total(
                        shards,
                        slot as int,
                        fee_of(v as usize),
                    ),
                forall|v: int|
                    0 <= v < user_num ==> #[trigger] transaction_num[v] == run_total(
                        shards,
                        slot as int,
                        one_for(v as usize),
                    ),
            decreases self.duration - slot,
        {
            let mut i: usize = 0;
            proof {
                assert(shards.take(0) =~= Seq::empty());
            }
            while i < self.environment.blockchain.shards.len()
                invariant
                    i <= shards.len(),
                    slot < self.duration <= usize::MAX,
                    environment == self.environment@,
                    shards == environment.blockchain.shards,
                    has_run_for(environment, self.duration),
                    user_num == environment.users.len(),
                    total_fee.len() == user_num,
                    transaction_num.len() == user_num,
                    forall|s: int, j: int, k: int|
                        0 <= s < slot && 0 <= j < shards.len() && 0 <= k
                            < shards[j].blocks[s].executed_transactions.len()
                            ==> #[trigger] is_booked(environment, s, j, k),
                    forall|j: int, k: int|
                        0 <= j < i
                            && 0 <= k < shards[j].blocks[slot as int].executed_transactions.len()
                            ==> #[trigger] is_booked(environment, slot as int, j, k),
                    forall|v: int|
                        0 <= v < user_num ==> #[trigger] total_fee[v] == run_total(
                            shards,
                            slot as int,
                            fee_of(v as usize),
                        ) + slot_total(shards.take(i as int), slot as int, fee_of(v as usize)),
                    forall|v: int|
                        0 <= v < user_num ==> #[trigger] transaction_num[v] == run_total(
                            shards,
                            slot as int,
                            one_for(v as usize),
                        ) + slot_total(shards.take(i as int), slot as int, one_for(v as usize)),
                decreases shards.len() - i,
            {
                let shard = &self.environment.blockchain.shards[i];
                let ghost viewed = shards[i as int];
                proof {
                    assert(viewed == shard@);
                    assert(viewed.blocks.len() >= self.duration && viewed.states.len()
                        > self.duration);
                    assert(viewed.blocks[slot as int] == shard.blocks[slot as int]@);
                    assert(viewed.states[slot as int] == shard.states[slot as int]@);
                }
                let base_fee = shard.states[slot].base_fee;
                let block = &shard.blocks[slot];
                let ghost executed = viewed.blocks[slot as int].executed_transactions;
                let mut k: usize = 0;
                proof {
                    assert(executed.take(0) =~= Seq::empty());
                }
                while k < block.executed_transactions.len()
                    invariant
                        k <= block.executed_transactions.len(),
                        i < shards.len(),
                        slot < self.duration <= usize::MAX,
                        environment == self.environment@,
                        shards == environment.blockchain.shards,
                        user_num == environment.users.len(),
                        total_fee.len() == user_num,
                        transaction_num.len() == user_num,
                        executed == shards[i as int].blocks[slot as int].executed_transactions,
                        executed == crate::shard_block::transactions_view(
                            block.executed_transactions@,
                        ),
                        base_fee == shards[i as int].states[slot as int].base_fee,
                        forall|j: int|
                            0 <= j < k
                                ==> #[trigger] is_booked(environment, slot as int, i as int, j),
                        forall|v: int|
                            0 <= v < user_num ==> #[trigger] total_fee[v] == partial_total(
                                shards,
                                slot as int,
                                i as int,
                                k as int,
                                fee_of(v as usize),
                            ),
                        forall|v: int|
                            0 <= v < user_num ==> #[trigger] transaction_num[v] == partial_total(
                                shards,
                                slot as int,
                                i as int,
                                k as int,
                                one_for(v as usize),
                            ),
                    decreases block.executed_transactions.len() - k,
                {
                    let transaction = &block.executed_transactions[k];
                    proof {
                        assert(executed[k as int] == transaction@);
                        assert(executed.take(k + 1).drop_last() =~= executed.take(k as int));
                        assert(executed.take(k + 1).last() == executed[k as int]);
                    }
                    if transaction.functions.len() == 0 || transaction.from >= user_num {
                        proof {
                            assert(!is_booked(environment, slot as int, i as int, k as int));
                        }
                        return None;
                    }
                    let from = transaction.from;
                    let ghost fee = booked_fee(transaction@, base_fee);
                    proof {
                        assert(transaction@.functions[0] == transaction.functions[0]@);
                        lemma_weights_never_negative(from);
                        lemma_partial_total(
                            shards,
                            self.duration as int,
                            slot as int,
                            i as int,
                            k + 1,
                            fee_of(from),
                        );
                        lemma_partial_total(
                            shards,
                            self.duration as int,
                            slot as int,
                            i as int,
                            k + 1,
                            one_for(from),
                        );
                        assert(partial_total(shards, slot as int, i as int, k + 1, fee_of(from))
                            == partial_total(shards, slot as int, i as int, k as int, fee_of(from))
                            + fee);
                        assert(partial_total(shards, slot as int, i as int, k + 1, one_for(from))
                            == partial_total(shards, slot as int, i as int, k as int, one_for(from))
                            + 1);
                        lemma_partial_total(
                            shards,
                            self.duration as int,
                            slot as int,
                            i as int,
                            k as int,
                            fee_of(from),
                        );
                        assert((from as int) as usize == from);
                    }
                    let fee_paid = match base_fee.checked_mul(transaction.functions[0].gas()) {
                        Some(fee_paid) => fee_paid,
                        None => {
                            return None;
                        },
                    };
                    let paid = match total_fee[from].checked_add(fee_paid) {
                        Some(paid) => paid,
                        None => {
                            return None;
                        },
                    };
                    let sent = match transaction_num[from].checked_add(1) {
                        Some(sent) => sent,
                        None => {
                            return None;
                        },
                    };
                    total_fee[from] = paid;
                    transaction_num[from] = sent;
                    proof {
                        assert forall|v: int| 0 <= v < user_num implies #[trigger] total_fee[v]
                            == partial_total(
                            shards,
                            slot as int,
                            i as int,
                            k + 1,
                            fee_of(v as usize),
                        ) by {
                            if v != from {
                                assert(fee_of(v as usize)(transaction@, base_fee) == 0);
                            }
                        }
                        assert forall|v: int| 0 <= v < user_num
                            implies #[trigger] transaction_num[v]
                            == partial_total(
                            shards,
                            slot as int,
                            i as int,
                            k + 1,
                            one_for(v as usize),
                        ) by {
                            if v != from {
                                assert(one_for(v as usize)(transaction@, base_fee) == 0);
                            }
                        }
                    }
                    k = k + 1;
                }
                proof {
                    assert(executed.take(k as int) =~= executed);
                    assert(shards.take(i + 1).drop_last() =~= shards.take(i as int));
                    assert(shards.take(i + 1).last() == shards[i as int]);
                }
                i = i + 1;
            }
            proof {
                assert(shards.take(i as int) =~= shards);
            }
            slot = slot + 1;
        }
        let mut records: Vec<UserRecord> = Vec::new();
        let mut u: usize = 0;
        while u < user_num
            invariant
                u <= user_num,
                environment == self.environment@,
                shards == environment.blockchain.shards,
                user_num == environment.users.len(),
                total_fee.len() == user_num,
                transaction_num.len() == user_num,
                records.len() == u,
                forall|v: int|
                    0 <= v < user_num ==> #[trigger] total_fee[v] == run_total(
                        shards,
                        self.duration as int,
                        fee_of(v as usize),
                    ),
                forall|v: int|
                    0 <= v < user_num ==> #[trigger] transaction_num[v] == run_total(
                        shards,
                        self.duration as int,
                        one_for(v as usize),
                    ),
                forall|v: int|
                    0 <= v < u ==> #[trigger] records[v] == user_record(
                        environment,
                        self.duration,
                        v,
                    ),
            decreases user_num - u,
        {
            let user = &self.environment.users[u];
            proof {
                assert(environment.users[u as int] == user@);
            }
            records.push(
                UserRecord {
                    addr: user.account_addr,
                    strategy: user.user_type.ordinal(),
                    total_fee: total_fee[u],
                    transaction_num: transaction_num[u],
                },
            );
            u = u + 1;
        }
        proof {
            assert forall|s: int, i: int, k: int|
                0 <= s < self.duration && 0 <= i < shards.len() && 0 <= k
                    < shards[i].blocks[s].executed_transactions.len() implies {
                let transaction = #[trigger] shards[i].blocks[s].executed_transactions[k];
                transaction.functions.len() > 0 && transaction.from < environment.users.len()
            } by {
                assert(is_booked(environment, s, i, k));
            }
            assert forall|v: int| 0 <= v < environment.users.len() implies #[trigger] run_total(
                shards,
                self.duration as int,
                fee_of(v as usize),
            ) <= u128::MAX by {
                assert(total_fee[v] <= u128::MAX);
            }
            assert forall|v: int| 0 <= v < environment.users.len() implies #[trigger] run_total(
                shards,
                self.duration as int,
                one_for(v as usize),
            ) <= u64::MAX by {
                assert(transaction_num[v] <= u64::MAX);
            }
        }
        Some(records)
    }
}

/// How many of `functions` are of the kind with the place `kind`.
pub open spec fn kind_count(functions: Seq<FunctionView>, kind: int) -> int
    decreases functions.len(),
{
    if functions.len() == 0 {
        0
    } else {
        kind_count(functions.drop_last(), kind) + if functions.last().ftype.spec_ordinal()
            == kind {
            1int
        } else {
            0int
        }
    }
}

/// The weight that counts, for the column `column` of the report on
/// functions, the functions of a transaction: the columns below 5 count
/// the kinds of function of the users that stay, the columns from 5 on
/// those of the users that switch.
pub open spec fn functions_for(users: Seq<UserView>, column: int) -> spec_fn(
    TransactionView,
    GasPrice,
) -> int {
    |transaction: TransactionView, base_fee: GasPrice|
        if transaction.from < users.len() && (users[transaction.from as int].user_type
            != StrategyType::NonSwitcher) == (column >= 5) {
            kind_count(transaction.functions, column % 5)
        } else {
            0
        }
}

/// No count of functions is below zero, and none is above the number of
/// the functions.
pub proof fn lemma_kind_count(functions: Seq<FunctionView>, kind: int)
    ensures
        0 <= kind_count(functions, kind) <= functions.len(),
    decreases functions.len(),
{
    if functions.len() > 0 {
        lemma_kind_count(functions.drop_last(), kind);
    }
}

/// The weight that counts functions is never below zero.
pub proof fn lemma_functions_for_never_negative(users: Seq<UserView>, column: int)
    ensures
        never_negative(functions_for(users, column)),
{
    assert forall|transaction: TransactionView, base_fee: GasPrice| #[trigger]
        functions_for(users, column)(transaction, base_fee) >= 0 by {
        lemma_kind_count(transaction.functions, column % 5);
    }
}

/// The blocks of the first `i` shards for a slot and the first `k`
/// transactions of the block of the next shard weigh no more than the
/// blocks of all shards for the slot.
pub proof fn lemma_slot_part(
    shards: Seq<ShardView>,
    slot: int,
    i: int,
    k: int,
    weigh: spec_fn(TransactionView, GasPrice) -> int,
)
    requires
        never_negative(weigh),
        0 <= i < shards.len(),
        0 <= k <= shards[i].blocks[slot].executed_transactions.len(),
    ensures
        0 <= slot_total(shards.take(i), slot, weigh) + block_total(
            shards[i].blocks[slot].executed_transactions.take(k),
            shards[i].states[slot].base_fee,
            weigh,
        ) <= slot_total(shards, slot, weigh),
{
    let block = shards[i].blocks[slot].executed_transactions;
    lemma_block_total_grows(block, shards[i].states[slot].base_fee, weigh, k);
    lemma_slot_total_grows(shards, slot, weigh, i + 1);
    lemma_slot_total_grows(shards.take(i + 1), slot, weigh, i);
    assert(shards.take(i + 1).take(i) =~= shards.take(i));
    assert(shards.take(i + 1).drop_last() =~= shards.take(i));
    assert(shards.take(i + 1).last() == shards[i]);
}

/// Whether the report on functions can be made for the first `duration`
/// slots: every transaction has a user for its sender, and every count
/// fits its field.
pub open spec fn functions_can_be_reported(environment: EnvironmentView, duration: Slot) -> bool {
    &&& forall|slot: int, i: int, k: int|
        0 <= slot < duration && 0 <= i < environment.blockchain.shards.len() && 0 <= k
            < environment.blockchain.shards[i].blocks[slot].executed_transactions.len() ==> (
        #[trigger] environment.blockchain.shards[i].blocks[slot].executed_transactions[k]).from
            < environment.users.len()
    &&& forall|slot: int, column: int|
        0 <= slot < duration && 0 <= column < 10 ==> #[trigger] slot_total(
            environment.blockchain.shards,
            slot,
            functions_for(environment.users, column),
        ) <= u64::MAX
}

/// Whether `row` is the row of the report on functions for the slot
/// `slot`: ten columns, each with its count.
pub open spec fn is_function_row(row: Seq<u64>, environment: EnvironmentView, slot: int) -> bool {
    &&& row.len() == 10
    &&& forall|column: int|
        0 <= column < 10 ==> #[trigger] row[column] == slot_total(
            environment.blockchain.shards,
            slot,
            functions_for(environment.users, column),
        )
}

/// Whether the sender of the transaction at the place `k` of the block of
/// the shard `i` for the slot `slot` is a user.
pub open spec fn has_known_sender(environment: EnvironmentView, slot: int, i: int, k: int) -> bool {
    environment.blockchain.shards[i].blocks[slot].executed_transactions[k].from
        < environment.users.len()
}

/// How many functions of each kind a transaction holds.
fn count_kinds(transaction: &Transaction) -> (counts: Vec<u64>)
    ensures
        counts.len() == 5,
        forall|kind: int|
            0 <= kind < 5 ==> #[trigger] counts[kind] == kind_count(transaction@.functions, kind),
{
    let mut counts: Vec<u64> = Vec::new();
    counts.push(0);
    counts.push(0);
    counts.push(0);
    counts.push(0);
    counts.push(0);
    let ghost functions = transaction@.functions;
    let mut j: usize = 0;
    proof {
        assert(functions.take(0) =~= Seq::empty());
    }
    while j < transaction.functions.len()
        invariant
            j <= transaction.functions.len(),
            functions == transaction@.functions,
            counts.len() == 5,
            forall|kind: int|
                0 <= kind < 5 ==> #[trigger] counts[kind] == kind_count(
                    functions.take(j as int),
                    kind,
                ),
        decreases transaction.functions.len() - j,
    {
        let kind = transaction.functions[j].ftype.ordinal();
        proof {
            assert(functions.take(j + 1).drop_last() =~= functions.take(j as int));
            assert(functions.take(j + 1).last() == transaction.functions[j as int]@);
            lemma_kind_count(functions.take(j as int), kind as int);
        }
        counts[kind] = counts[kind] + 1;
        j = j + 1;
    }
    proof {
        assert(functions.take(j as int) =~= functions);
    }
    counts
}

impl Simulator {
    /// For each slot of the run, how many functions of each kind ran: in
    /// the first five columns those of the users that stay, in the last
    /// five those of the users that switch; nothing if a sender is no
    /// user or a count does not fit its field.
    pub fn function_num_records(&self) -> (rows: Option<Vec<Vec<u64>>>)
        requires
            self.duration <= usize::MAX,
            has_run_for(self.environment@, self.duration),
        ensures
            rows is Some <==> functions_can_be_reported(self.environment@, self.duration),
            rows matches Some(records) ==> records.len() == self.duration && forall|slot: int|
                0 <= slot < self.duration ==> is_function_row(
                    (#[trigger] records[slot])@,
                    self.environment@,
                    slot,
                ),
    {
        let ghost environment = self.environment@;
        let ghost shards = environment.blockchain.shards;
        let ghost users = environment.users;
        let mut records: Vec<Vec<u64>> = Vec::new();
        let mut slot: usize = 0;
        while slot < self.duration as usize
            invariant
                slot <= self.duration <= usize::MAX,
                environment == self.environment@,
                shards == environment.blockchain.shards,
                users == environment.users,
                has_run_for(environment, self.duration),
                records.len() == slot,
                forall|s: int, i: int, k: int|
                    0 <= s < slot && 0 <= i < shards.len() && 0 <= k
                        < shards[i].blocks[s].executed_transactions.len()
                        ==> #[trigger] has_known_sender(environment, s, i, k),
                forall|s: int|
                    0 <= s < slot ==> is_function_row((#[trigger] records[s])@, environment, s),
            decreases self.duration - slot,
        {
            let mut function_cnt: Vec<u64> = Vec::new();
            let mut column: usize = 0;
            while column < 10
                invariant
                    column <= 10,
                    function_cnt.len() == column,
                    forall|c: int| 0 <= c < column ==> #[trigger] function_cnt[c] == 0,
                decreases 10 - column,
            {
                function_cnt.push(0);
                column = column + 1;
            }
            let mut i: usize = 0;
            proof {
                assert(shards.take(0) =~= Seq::empty());
            }
            while i < self.environment.blockchain.shards.len()
                invariant
                    i <= shards.len(),
                    slot < self.duration <= usize::MAX,
                    environment == self.environment@,
                    shards == environment.blockchain.shards,
                    users == environment.users,
                    has_run_for(environment, self.duration),
                    function_cnt.len() == 10,
                    forall|j: int, k: int|
                        0 <= j < i
                            && 0 <= k < shards[j].blocks[slot as int].executed_transactions.len()
                            ==> #[trigger] has_known_sender(environment, slot as int, j, k),
                    forall|c: int|
                        0 <= c < 10 ==> #[trigger] function_cnt[c] == slot_total(
                            shards.take(i as int),
                            slot as int,
                            functions_for(users, c),
                        ),
                decreases shards.len() - i,
            {
                let shard = &self.environment.blockchain.shards[i];
                let ghost viewed = shards[i as int];
                proof {
                    assert(viewed == shard@);
                    assert(viewed.blocks.len() >= self.duration && viewed.states.len()
                        > self.duration);
                    assert(viewed.blocks[slot as int] == shard.blocks[slot as int]@);
                }
                let block = &shard.blocks[slot];
                let ghost executed = viewed.blocks[slot as int].executed_transactions;
                let ghost base_fee = viewed.states[slot as int].base_fee;
                let mut k: usize = 0;
                proof {
                    assert(executed.take(0) =~= Seq::empty());
                }
                while k < block.executed_transactions.len()
                    invariant
                        k <= block.executed_transactions.len(),
                        i < shards.len(),
                        slot < self.duration <= usize::MAX,
                        environment == self.environment@,
                        shards == environment.blockchain.shards,
                        users == environment.users,
                        function_cnt.len() == 10,
                        executed == shards[i as int].blocks[slot as int].executed_transactions,
                        executed == crate::shard_block::transactions_view(
                            block.executed_transactions@,
                        ),
                        base_fee == shards[i as int].states[slot as int].base_fee,
                        forall|j: int|
                            0 <= j < k ==> #[trigger] has_known_sender(
                                environment,
                                slot as int,
                                i as int,
                                j,
                            ),
                        forall|c: int|
                            0 <= c < 10 ==> #[trigger] function_cnt[c] == slot_total(
                                shards.take(i as int),
                                slot as int,
                                functions_for(users, c),
                            ) + block_total(
                                executed.take(k as int),
                                base_fee,
                                functions_for(users, c),
                            ),
                    decreases block.executed_transactions.len() - k,
                {
                    let transaction = &block.executed_transactions[k];
                    proof {
                        assert(executed[k as int] == transaction@);
                        assert(executed.take(k + 1).drop_last() =~= executed.take(k as int));
                        assert(executed.take(k + 1).last() == executed[k as int]);
                    }
                    if transaction.from >= self.environment.users.len() {
                        proof {
                            assert(!has_known_sender(environment, slot as int, i as int, k as int));
                        }
                        return None;
                    }
                    let user = &self.environment.users[transaction.from];
                    let offset: usize = if user.user_type.is_switcher() {
                        5
                    } else {
                        0
                    };
                    proof {
                        assert(users[transaction.from as int] == user@);
                    }
                    let per_kind = count_kinds(transaction);
                    let ghost before = function_cnt@;
                    let ghost weights = Seq::new(
                        10,
                        |c: int| functions_for(users, c)(executed[k as int], base_fee),
                    );
                    proof {
                        assert forall|c: int| 0 <= c < 10 implies #[trigger] weights[c] == if offset
                            <= c < offset + 5 {
                            per_kind[c - offset] as int
                        } else {
                            0int
                        } by {
                            if offset <= c < offset + 5 {
                                assert(c % 5 == c - offset);
                            }
                        }
                        assert forall|c: int| 0 <= c < 10 implies slot_total(
                            shards.take(i as int),
                            slot as int,
                            functions_for(users, c),
                        ) + block_total(executed.take(k + 1), base_fee, functions_for(users, c))
                            == #[trigger] before[c] + weights[c] && before[c] + weights[c]
                            <= slot_total(shards, slot as int, functions_for(users, c)) by {
                            lemma_functions_for_never_negative(users, c);
                            lemma_slot_part(
                                shards,
                                slot as int,
                                i as int,
                                k + 1,
                                functions_for(users, c),
                            );
                        }
                    }
                    let mut kind: usize = 0;
                    while kind < 5
                        invariant
                            kind <= 5,
                            offset == 0 || offset == 5,
                            function_cnt.len() == 10,
                            before.len() == 10,
                            weights.len() == 10,
                            per_kind.len() == 5,
                            slot < self.duration,
                            environment == self.environment@,
                            shards == environment.blockchain.shards,
                            users == environment.users,
                            forall|c: int|
                                0 <= c < 10 ==> #[trigger] weights[c] == if offset <= c < offset
                                    + 5 {
                                    per_kind[c - offset] as int
                                } else {
                                    0int
                                },
                            forall|c: int|
                                0 <= c < 10 ==> #[trigger] before[c] + weights[c] <= slot_total(
                                    shards,
                                    slot as int,
                                    functions_for(users, c),
                                ),
                            forall|c: int|
                                0 <= c < 10 ==> #[trigger] function_cnt[c] == before[c] + if offset
                                    <= c < offset + kind {
                                    weights[c]
                                } else {
                                    0int
                                },
                        decreases 5 - kind,
                    {
                        let column = kind + offset;
                        proof {
                            assert(weights[column as int] == per_kind[kind as int]);
                            assert(function_cnt[column as int] == before[column as int]);
                        }
                        let counted = match function_cnt[column].checked_add(per_kind[kind]) {
                            Some(counted) => counted,
                            None => {
                                proof {
                                    assert(before[column as int] + weights[column as int]
                                        > u64::MAX);
                                    assert(slot_total(
                                        shards,
                                        slot as int,
                                        functions_for(users, column as int),
                                    ) > u64::MAX);
                                }
                                return None;
                            },
                        };
                        function_cnt[column] = counted;
                        kind = kind + 1;
                    }
                    proof {
                        assert forall|c: int| 0 <= c < 10 implies #[trigger] function_cnt[c]
                            == slot_total(
                            shards.take(i as int),
                            slot as int,
                            functions_for(users, c),
                        ) + block_total(executed.take(k + 1), base_fee, functions_for(users,
                            c)) by {
                            assert(function_cnt[c] == before[c] + weights[c]);
                        }
                    }
                    k = k + 1;
                }
                proof {
                    assert(executed.take(k as int) =~= executed);
                    assert(shards.take(i + 1).drop_last() =~= shards.take(i as int));
                    assert(shards.take(i + 1).last() == shards[i as int]);
                }
                i = i + 1;
            }
            proof {
                assert(shards.take(i as int) =~= shards);
                assert(is_function_row(function_cnt@, environment, slot as int));
            }
            records.push(function_cnt);
            slot = slot + 1;
        }
        proof {
            assert forall|s: int, i: int, k: int|
                0 <= s < self.duration && 0 <= i < shards.len() && 0 <= k
                    < shards[i].blocks[s].executed_transactions.len() implies (
            #[trigger] shards[i].blocks[s].executed_transactions[k]).from < users.len() by {
                assert(has_known_sender(environment, s, i, k));
            }
            assert forall|s: int, column: int|
                0 <= s < self.duration && 0 <= column < 10 implies #[trigger] slot_total(
                shards,
                s,
                functions_for(users, column),
            ) <= u64::MAX by {
                assert(is_function_row(records[s]@, environment, s));
                assert(records[s]@[column] <= u64::MAX);
            }
        }
        Some(records)
    }
}

/// The first `count` rows of a record.
fn copy_rows(record: &Vec<Vec<usize>>, count: Slot) -> (rows: Vec<Vec<usize>>)
    requires
        count <= record.len(),
    ensures
        rows.len() == count,
        forall|slot: int| 0 <= slot < count ==> (#[trigger] rows[slot])@ == record[slot]@,
{
    let mut rows: Vec<Vec<usize>> = Vec::new();
    let mut slot: usize = 0;
    while slot < count as usize
        invariant
            slot <= count <= record.len(),
            rows.len() == slot,
            forall|s: int| 0 <= s < slot ==> (#[trigger] rows[s])@ == record[s]@,
        decreases count - slot,
    {
        let row = record[slot].clone();
        assert(row@ =~= record[slot as int]@);
        rows.push(row);
        slot = slot + 1;
    }
    rows
}

} // verus!
