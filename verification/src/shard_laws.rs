use crate::custom_types::{Address, Gas, GasPrice, TransactionHash};
use crate::function::FunctionView;
use crate::mempool::{priority_rank, sorted_mempool, EntryView};
use crate::ordering::{
    is_sorted, lemma_stable_sort_is_sorted, lemma_stable_sort_keeps, lemma_stable_sort_len,
};
use crate::parameters::{BLOCK_GAS_LIMIT, MAX_GASPRICE, MEMPOOL_TRANSACTION_NUM};
use crate::receipt::ReceiptView;
use crate::shard::{all_above_base_fee, in_priority_order, ShardView, TransactionExecutionResult};
use crate::shard_block::ShardBlockView;
use crate::shard_state::{lemma_base_fee_stays_bounded, next_base_fee};
use crate::transaction::TransactionView;
use vstd::prelude::*;

verus! {

/// A shard that evolves to a second, which evolves to a third, evolves to
/// the third.
pub proof fn lemma_evolves_transitive(first: ShardView, second: ShardView, third: ShardView)
    requires
        first.evolves_to(second),
        second.evolves_to(third),
    ensures
        first.evolves_to(third),
{
    assert forall|a: Address| first.nonce_of(a) <= third.nonce_of(a) by {
        assert(first.nonce_of(a) <= second.nonce_of(a));
        assert(second.nonce_of(a) <= third.nonce_of(a));
    }
    assert forall|a: Address| first.holds(a) implies third.holds(a) by {
        assert(first.holds(a) ==> second.holds(a));
        assert(second.holds(a) ==> third.holds(a));
    }
}

/// A shard whose chain is that of a well-formed shard is well formed, if
/// its accounts are stamped and its mempool holds only what it accepts.
pub proof fn lemma_wf_with_same_chain(before: ShardView, after: ShardView)
    requires
        before.wf(),
        after.id == before.id,
        after.blocks == before.blocks,
        after.states == before.states,
        after.stamped(),
        forall|i: int| 0 <= i < after.mempool.len()
            ==> after.accepts((#[trigger] after.mempool[i]).0),
    ensures
        after.wf(),
{
    assert forall|i: int| 0 <= i < after.blocks.len() implies #[trigger] after.block_follows_rules(
        i,
    ) by {
        assert(before.block_follows_rules(i));
    }
}

/// Running a function leaves the chain, the receipts and the nonces as
/// they were, and loses no account.
pub proof fn lemma_execute_function_evolves(
    shard: ShardView,
    function: FunctionView,
    receipt: Option<ReceiptView>,
)
    ensures
        shard.evolves_to(shard.execute_function(function, receipt).shard),
        shard.execute_function(function, receipt).shard.receipts == shard.receipts,
        shard.execute_function(function, receipt).shard.account_nonce == shard.account_nonce,
        shard.stamped() ==> shard.execute_function(function, receipt).shard.stamped(),
{
    let after = shard.execute_function(function, receipt).shard;
    assert forall|a: Address| shard.holds(a) implies after.holds(a) by {}
    assert forall|a: Address| shard.nonce_of(a) <= after.nonce_of(a) by {}
}

/// Running the functions of a transaction leaves the chain, the receipts
/// and the nonces as they were, and loses no account.
pub proof fn lemma_execute_functions_evolves(
    shard: ShardView,
    functions: Seq<FunctionView>,
    receipt: Option<ReceiptView>,
)
    ensures
        shard.evolves_to(shard.execute_functions(functions, receipt).shard),
        shard.execute_functions(functions, receipt).shard.receipts == shard.receipts,
        shard.execute_functions(functions, receipt).shard.account_nonce == shard.account_nonce,
        shard.stamped() ==> shard.execute_functions(functions, receipt).shard.stamped(),
    decreases functions.len(),
{
    if functions.len() > 0 {
        let before = shard.execute_functions(functions.drop_last(), receipt);
        lemma_execute_functions_evolves(shard, functions.drop_last(), receipt);
        lemma_execute_function_evolves(before.shard, functions.last(), receipt);
        lemma_evolves_transitive(
            shard,
            before.shard,
            before.shard.execute_function(functions.last(), receipt).shard,
        );
    } else {
        assert forall|a: Address| shard.holds(a) implies shard.holds(a) by {}
    }
}

/// Running a transaction leaves the chain and the receipts as they were,
/// lowers no nonce and loses no account. It uses the gas of the
/// transaction, or none when the nonce did not fit; a skipped transaction
/// leaves the shard as it was.
pub proof fn lemma_execute_transaction_evolves(
    shard: ShardView,
    transaction: TransactionView,
    receipt: Option<ReceiptView>,
)
    requires
        transaction.nonce < usize::MAX,
    ensures
        shard.evolves_to(shard.execute_transaction(transaction, receipt).shard),
        shard.execute_transaction(transaction, receipt).shard.receipts == shard.receipts,
        shard.execute_transaction(transaction, receipt).gas_used == 0 || shard.execute_transaction(
            transaction,
            receipt,
        ).gas_used == transaction.gas() as Gas,
        shard.execute_transaction(transaction, receipt).result == TransactionExecutionResult::Skip
            ==> shard.execute_transaction(transaction, receipt).shard == shard,
        shard.stamped() ==> shard.execute_transaction(transaction, receipt).shard.stamped(),
{
    let expected = shard.nonce_of(transaction.from);
    if transaction.nonce == expected {
        let bumped = ShardView {
            account_nonce: shard.account_nonce.insert(transaction.from, (expected + 1) as usize),
            ..shard
        };
        assert(shard.evolves_to(bumped)) by {
            assert forall|a: Address| shard.nonce_of(a) <= bumped.nonce_of(a) by {}
            assert forall|a: Address| shard.holds(a) implies bumped.holds(a) by {}
        }
        lemma_execute_functions_evolves(bumped, transaction.functions, receipt);
        lemma_evolves_transitive(
            shard,
            bumped,
            bumped.execute_functions(transaction.functions, receipt).shard,
        );
    } else {
        assert forall|a: Address| shard.holds(a) implies shard.holds(a) by {}
    }
}

/// Filling a block from a pool in order of priority, when the block is
/// within the gas limit and in order so far, and nothing in the pool has a
/// higher priority than what the block holds: the chain stays as it was,
/// no nonce falls, no account is lost, and the block ends within the gas
/// limit, in order of priority, with every fee cap above the base fee. At
/// most as many transactions run as the pool holds.
pub proof fn lemma_fill_block(
    shard: ShardView,
    pool: Seq<EntryView>,
    base_fee: GasPrice,
    block: ShardBlockView,
    receipts: Map<TransactionHash, ReceiptView>,
    executed: nat,
)
    requires
        block.gas_used <= BLOCK_GAS_LIMIT,
        is_sorted(pool, priority_rank(base_fee)),
        in_priority_order(block.executed_transactions, base_fee),
        all_above_base_fee(block.executed_transactions, base_fee),
        forall|j: int, k: int|
            0 <= j < block.executed_transactions.len() && 0 <= k < pool.len()
                ==> block.executed_transactions[j].effective_priority(base_fee)
                >= pool[k].0.effective_priority(base_fee),
        forall|k: int| 0 <= k < pool.len() ==> (#[trigger] pool[k]).0.nonce < usize::MAX,
    ensures
        shard.evolves_to(shard.fill_block(pool, base_fee, block, receipts, executed).shard),
        shard.fill_block(pool, base_fee, block, receipts, executed).block.number == block.number,
        shard.fill_block(pool, base_fee, block, receipts, executed).block.gas_used
            <= BLOCK_GAS_LIMIT,
        in_priority_order(
            shard.fill_block(pool, base_fee, block, receipts, executed).block.executed_transactions,
            base_fee,
        ),
        all_above_base_fee(
            shard.fill_block(pool, base_fee, block, receipts, executed).block.executed_transactions,
            base_fee,
        ),
        executed <= shard.fill_block(pool, base_fee, block, receipts, executed).executed
            <= executed + pool.len(),
        shard.stamped() ==> shard.fill_block(
            pool,
            base_fee,
            block,
            receipts,
            executed,
        ).shard.stamped(),
    decreases pool.len(),
{
    if pool.len() == 0 || ShardView::block_stops_at(block.gas_used, pool.first().0, base_fee) {
        assert forall|a: Address| shard.holds(a) implies shard.holds(a) by {}
    } else {
        let (transaction, receipt) = pool.first();
        let outcome = shard.execute_transaction(transaction, receipt);
        assert(pool[0].0.nonce < usize::MAX);
        lemma_execute_transaction_evolves(shard, transaction, receipt);
        let rest = pool.drop_first();
        let rank = priority_rank(base_fee);
        assert(is_sorted(rest, rank)) by {
            assert forall|i: int, j: int| 0 <= i < j < rest.len() implies rank(rest[i]) <= rank(
                rest[j],
            ) by {
                assert(rest[i] == pool[i + 1] && rest[j] == pool[j + 1]);
            }
        }
        assert forall|k: int| 0 <= k < rest.len() implies (#[trigger] rest[k]).0.nonce
            < usize::MAX by {
            assert(rest[k] == pool[k + 1]);
        }
        if outcome.result == TransactionExecutionResult::Skip {
            assert forall|j: int, k: int|
                0 <= j < block.executed_transactions.len() && 0 <= k < rest.len()
                    implies block.executed_transactions[j].effective_priority(
                base_fee,
            ) >= rest[k].0.effective_priority(base_fee) by {
                assert(rest[k] == pool[k + 1]);
            }
            lemma_fill_block(outcome.shard, rest, base_fee, block, receipts, executed);
            lemma_evolves_transitive(
                shard,
                outcome.shard,
                outcome.shard.fill_block(rest, base_fee, block, receipts, executed).shard,
            );
        } else {
            let made = crate::shard::receipt_of(block.number, transaction, outcome);
            let recorded = ShardView {
                receipts: outcome.shard.receipts.insert(transaction.hash, made),
                ..outcome.shard
            };
            let grown = ShardBlockView {
                executed_transactions: block.executed_transactions.push(transaction),
                gas_used: (block.gas_used + outcome.gas_used) as Gas,
                number: block.number,
            };
            assert(shard.evolves_to(recorded)) by {
                assert forall|a: Address| shard.nonce_of(a) <= recorded.nonce_of(a) by {
                    assert(shard.nonce_of(a) <= outcome.shard.nonce_of(a));
                }
                assert forall|a: Address| shard.holds(a) implies recorded.holds(a) by {
                    assert(shard.holds(a) ==> outcome.shard.holds(a));
                }
            }
            assert(in_priority_order(grown.executed_transactions, base_fee)) by {
                assert forall|j: int, k: int|
                    0 <= j < k < grown.executed_transactions.len()
                        implies grown.executed_transactions[j].effective_priority(
                    base_fee,
                ) >= grown.executed_transactions[k].effective_priority(base_fee) by {
                    if k == block.executed_transactions.len() {
                        assert(pool[0].0 == transaction);
                    }
                }
            }
            assert(all_above_base_fee(grown.executed_transactions, base_fee));
            assert forall|j: int, k: int|
                0 <= j < grown.executed_transactions.len() && 0 <= k < rest.len()
                    implies grown.executed_transactions[j].effective_priority(
                base_fee,
            ) >= rest[k].0.effective_priority(base_fee) by {
                assert(rest[k] == pool[k + 1]);
                if j == block.executed_transactions.len() {
                    assert(rank(pool[0]) <= rank(pool[k + 1]));
                }
            }
            lemma_fill_block(
                recorded,
                rest,
                base_fee,
                grown,
                receipts.insert(transaction.hash, made),
                executed + 1,
            );
            lemma_evolves_transitive(
                shard,
                recorded,
                recorded.fill_block(
                    rest,
                    base_fee,
                    grown,
                    receipts.insert(transaction.hash, made),
                    executed + 1,
                ).shard,
            );
        }
    }
}

/// A slot keeps a well-formed shard well formed. It appends one block and
/// one state, lowers no nonce and loses no account.
pub proof fn lemma_process_slot(shard: ShardView)
    requires
        shard.wf(),
    ensures
        shard.process_slot().wf(),
        shard.process_slot().id == shard.id,
        shard.process_slot().blocks.len() == shard.blocks.len() + 1,
        shard.process_slot().states.len() == shard.process_slot().blocks.len() + 1,
        shard.process_slot().blocks.last().gas_used <= BLOCK_GAS_LIMIT,
        shard.process_slot().blocks.drop_last() == shard.blocks,
        shard.process_slot().states.drop_last() == shard.states,
        shard.process_slot().base_fee() == next_base_fee(
            shard.base_fee() as int,
            shard.process_slot().blocks.last().gas_used as int,
        ),
        all_above_base_fee(
            shard.process_slot().blocks.last().executed_transactions,
            shard.base_fee(),
        ),
        in_priority_order(
            shard.process_slot().blocks.last().executed_transactions,
            shard.base_fee(),
        ),
        shard.process_slot().used_receipts == shard.used_receipts,
        shard.process_slot().mempool.len() <= MEMPOOL_TRANSACTION_NUM,
        forall|a: Address| shard.nonce_of(a) <= #[trigger] shard.process_slot().nonce_of(a),
        forall|a: Address| shard.holds(a) ==> #[trigger] shard.process_slot().holds(a),
{
    let base_fee = shard.base_fee();
    let rank = priority_rank(base_fee);
    let sorted = sorted_mempool(shard.mempool, base_fee);
    let ordered = ShardView { mempool: sorted, ..shard };
    let empty = ShardBlockView::empty(shard.blocks.len() as crate::custom_types::Slot);
    let run = shard.slot_run();
    lemma_stable_sort_is_sorted(shard.mempool, rank);
    lemma_stable_sort_len(shard.mempool, rank);
    let accepted = |e: EntryView| shard.accepts(e.0);
    lemma_stable_sort_keeps(shard.mempool, rank, accepted);
    assert forall|k: int| 0 <= k < sorted.len() implies (#[trigger] sorted[k]).0.nonce
        < usize::MAX by {
        assert(accepted(sorted[k]));
    }
    lemma_fill_block(ordered, sorted, base_fee, empty, Map::empty(), 0);
    let remaining = sorted.skip(run.executed as int);
    let rest = sorted_mempool(remaining, base_fee);
    lemma_stable_sort_len(remaining, rank);
    assert forall|i: int| 0 <= i < remaining.len() implies accepted(#[trigger] remaining[i]) by {
        assert(remaining[i] == sorted[i + run.executed]);
    }
    lemma_stable_sort_keeps(remaining, rank, accepted);
    let after = shard.process_slot();
    assert(shard.states[shard.states.len() - 1].base_fee <= MAX_GASPRICE);
    lemma_base_fee_stays_bounded(base_fee as int, run.block.gas_used as int);
    assert(after.blocks.drop_last() =~= shard.blocks);
    assert(after.states.drop_last() =~= shard.states);
    assert forall|i: int| 0 <= i < after.states.len() implies (#[trigger] after.states[i]).base_fee
        <= MAX_GASPRICE by {
        if i < shard.states.len() {
            assert(after.states[i] == shard.states[i]);
        }
    }
    assert forall|i: int| 0 <= i < after.blocks.len() implies #[trigger] after.block_follows_rules(
        i,
    ) by {
        if i < shard.blocks.len() {
            assert(shard.block_follows_rules(i));
            assert(after.blocks[i] == shard.blocks[i]);
            assert(after.states[i] == shard.states[i]);
            assert(after.states[i + 1] == shard.states[i + 1]);
        } else {
            assert(after.blocks[i] == run.block);
            assert(after.states[i] == shard.states[i]);
        }
    }
    assert forall|i: int| 0 <= i < after.mempool.len() implies after.accepts(
        (#[trigger] after.mempool[i]).0,
    ) by {
        assert(after.mempool[i] == rest[i]);
        assert(accepted(rest[i]));
    }
    assert forall|a: Address| shard.nonce_of(a) <= #[trigger] after.nonce_of(a) by {
        assert(ordered.nonce_of(a) <= run.shard.nonce_of(a));
    }
    assert forall|a: Address| shard.holds(a) implies #[trigger] after.holds(a) by {
        assert(ordered.holds(a) ==> run.shard.holds(a));
    }
}

} // verus!
