use crate::account::Account;
use crate::confirmation::lemma_settle;
use crate::custom_types::Address;
use crate::environment::{EnvironmentView, StrategyPlan};
use crate::function::{FunctionType, FunctionView};
use crate::json::account_of_json;
use crate::mempool::{priority_rank, sorted_mempool, EntryView};
use crate::ordering::{
    is_sorted, lemma_skip_of_sorted, lemma_stable_sort_is_permutation,
    lemma_stable_sort_is_sorted, lemma_stable_sort_keeps, lemma_stable_sort_len,
    lemma_stable_sort_of_sorted,
};
use crate::parameters::MEMPOOL_TRANSACTION_NUM;
use crate::parameters::{BLOCK_GAS_LIMIT, SHARD_NUM};
use crate::receipt::ReceiptView;
use crate::shard::{ShardView, TransactionExecutionResult};
use crate::shard_block::ShardBlockView;
use crate::shard_laws::lemma_process_slot;
use crate::shard_state::next_base_fee;
use crate::sharded_blockchain::ShardedBlockchainView;
use crate::transaction::TransactionView;
use crate::user_graph::UserGraphView;
use vstd::prelude::*;

verus! {

/// A well-formed shard has one state more than it has blocks.
pub proof fn lemma_states_outnumber_blocks(shard: ShardView)
    requires
        shard.wf(),
    ensures
        shard.states.len() == shard.blocks.len() + 1,
{
}

/// No block of a well-formed shard uses more gas than the limit.
pub proof fn lemma_blocks_within_gas_limit(shard: ShardView, i: int)
    requires
        shard.wf(),
        0 <= i < shard.blocks.len(),
    ensures
        shard.blocks[i].gas_used <= BLOCK_GAS_LIMIT,
{
    assert(shard.block_follows_rules(i));
}

/// In a well-formed shard the base fee after each block is the one that
/// follows from the base fee before it and the gas that the block used.
pub proof fn lemma_base_fee_follows_gas_used(shard: ShardView, i: int)
    requires
        shard.wf(),
        0 <= i < shard.blocks.len(),
    ensures
        shard.states[i + 1].base_fee == next_base_fee(
            shard.states[i].base_fee as int,
            shard.blocks[i].gas_used as int,
        ),
{
    assert(shard.block_follows_rules(i));
}

/// In each block of a well-formed shard the effective priority, at the
/// base fee of the block, never rises from one transaction to a later one.
pub proof fn lemma_blocks_in_priority_order(shard: ShardView, i: int, j: int, k: int)
    requires
        shard.wf(),
        0 <= i < shard.blocks.len(),
        0 <= j < k < shard.blocks[i].executed_transactions.len(),
    ensures
        shard.blocks[i].executed_transactions[j].effective_priority(shard.states[i].base_fee)
            >= shard.blocks[i].executed_transactions[k].effective_priority(
            shard.states[i].base_fee,
        ),
{
    assert(shard.block_follows_rules(i));
}

/// Every transaction in a block of a well-formed shard has a fee cap above
/// the base fee of the block: a cap that only equals it is not enough.
pub proof fn lemma_executed_fee_caps_are_above_base_fee(shard: ShardView, i: int, k: int)
    requires
        shard.wf(),
        0 <= i < shard.blocks.len(),
        0 <= k < shard.blocks[i].executed_transactions.len(),
    ensures
        shard.blocks[i].executed_transactions[k].fee_cap > shard.states[i].base_fee,
{
    assert(shard.block_follows_rules(i));
}

/// A slot lowers no nonce of a well-formed shard.
pub proof fn lemma_nonces_never_fall(shard: ShardView, addr: Address)
    requires
        shard.wf(),
    ensures
        shard.nonce_of(addr) <= shard.process_slot().nonce_of(addr),
{
    lemma_process_slot(shard);
}

/// Putting a mempool in order loses no entry and makes none up: the same
/// entries are there, each as often as before, and the effective priority
/// never rises from one to the next.
pub proof fn lemma_sorted_mempool(pool: Seq<EntryView>, base_fee: u128)
    ensures
        sorted_mempool(pool, base_fee).to_multiset() == pool.to_multiset(),
        sorted_mempool(pool, base_fee).len() == pool.len(),
        forall|j: int, k: int|
            0 <= j < k < pool.len() ==> sorted_mempool(pool, base_fee)[j].0.effective_priority(
                base_fee,
            ) >= sorted_mempool(pool, base_fee)[k].0.effective_priority(base_fee),
{
    let rank = priority_rank(base_fee);
    let sorted = sorted_mempool(pool, base_fee);
    lemma_stable_sort_is_permutation(pool, rank);
    lemma_stable_sort_len(pool, rank);
    lemma_stable_sort_is_sorted(pool, rank);
    assert(is_sorted(sorted, rank));
    assert forall|j: int, k: int| 0 <= j < k < pool.len() implies sorted[j].0.effective_priority(
        base_fee,
    ) >= sorted[k].0.effective_priority(base_fee) by {
        assert(rank(sorted[j]) <= rank(sorted[k]));
    }
}

/// After a slot the mempool of a shard holds what stood in it before, in
/// order of priority, but for as many entries at the head as transactions
/// ran, and for what is beyond `MEMPOOL_TRANSACTION_NUM` entries.
pub proof fn lemma_mempool_after_slot(shard: ShardView)
    requires
        shard.wf(),
    ensures
        shard.slot_run().executed <= shard.mempool.len(),
        shard.process_slot().mempool == {
            let rest = sorted_mempool(shard.mempool, shard.base_fee()).skip(
                shard.slot_run().executed as int,
            );
            if rest.len() <= MEMPOOL_TRANSACTION_NUM {
                rest
            } else {
                rest.take(MEMPOOL_TRANSACTION_NUM as int)
            }
        },
{
    let base_fee = shard.base_fee();
    let rank = priority_rank(base_fee);
    let sorted = sorted_mempool(shard.mempool, base_fee);
    lemma_stable_sort_is_sorted(shard.mempool, rank);
    lemma_stable_sort_len(shard.mempool, rank);
    let nonces = |e: EntryView| e.0.nonce < usize::MAX;
    assert forall|k: int| 0 <= k < shard.mempool.len()
        implies nonces(#[trigger] shard.mempool[k]) by {
        assert(shard.accepts(shard.mempool[k].0));
    }
    lemma_stable_sort_keeps(shard.mempool, rank, nonces);
    assert forall|k: int| 0 <= k < sorted.len() implies (#[trigger] sorted[k]).0.nonce
        < usize::MAX by {
        assert(nonces(sorted[k]));
    }
    crate::shard_laws::lemma_fill_block(
        ShardView { mempool: sorted, ..shard },
        sorted,
        base_fee,
        ShardBlockView::empty(shard.blocks.len() as u64),
        Map::empty(),
        0,
    );
    let executed = shard.slot_run().executed as int;
    lemma_skip_of_sorted(sorted, rank, executed);
    lemma_stable_sort_of_sorted(sorted.skip(executed), rank);
}

/// Taking in a whole account with a receipt whose payload stands for
/// `account` succeeds, if the receipt is not used up, and settles the
/// account on the shard with its address and balance as they were,
/// stamped with the shard.
pub proof fn lemma_apply_restores_account(
    shard: ShardView,
    function: FunctionView,
    receipt: ReceiptView,
    account: Account,
)
    requires
        function.ftype == FunctionType::ApplyCrossTransferAll,
        !shard.used_receipts.contains(receipt.transaction_hash),
        account_of_json(receipt.data) == Some((account.addr, account.shard_id, account.balance)),
    ensures
        shard.execute_function(function, Some(receipt)).success,
        shard.execute_function(function, Some(receipt)).shard.accounts.contains_key(account.addr),
        shard.execute_function(function, Some(receipt)).shard.accounts[account.addr] == (Account {
            addr: account.addr,
            shard_id: shard.id,
            balance: account.balance,
        }),
{
}

/// Sending a whole account off succeeds if the account is settled on the
/// shard; the account is then on the move, and no longer settled.
pub proof fn lemma_create_moves_account(shard: ShardView, function: FunctionView)
    requires
        function.ftype == FunctionType::CreateCrossTransferAll,
        shard.accounts.contains_key(function.target),
    ensures
        shard.execute_function(function, None).success,
        !shard.execute_function(function, None).shard.accounts.contains_key(function.target),
        shard.execute_function(function, None).shard.moving_accounts.contains_key(function.target),
        shard.execute_function(function, None).shard.moving_accounts[function.target]
            == shard.accounts[function.target],
{
}

/// Whether no function of `transaction` takes in a whole account.
pub open spec fn brings_no_account(transaction: TransactionView) -> bool {
    forall|k: int|
        0 <= k < transaction.functions.len() ==> (#[trigger] transaction.functions[k]).ftype
            != FunctionType::ApplyCrossTransferAll
}

/// Whether the account `addr` arrives on `shard` in the next slot: the
/// shard does not hold it, and holds it one slot later.
pub open spec fn arrives_at(shard: ShardView, addr: Address) -> bool {
    !shard.holds(addr) && shard.process_slot().holds(addr)
}

/// Functions that take in no whole account leave the accounts that a
/// shard holds as they were.
proof fn lemma_functions_bring_nothing(
    shard: ShardView,
    functions: Seq<FunctionView>,
    receipt: Option<ReceiptView>,
    addr: Address,
)
    requires
        forall|k: int|
            0 <= k < functions.len() ==> (#[trigger] functions[k]).ftype
                != FunctionType::ApplyCrossTransferAll,
    ensures
        shard.execute_functions(functions, receipt).shard.holds(addr) == shard.holds(addr),
    decreases functions.len(),
{
    if functions.len() > 0 {
        let shorter = functions.drop_last();
        assert forall|k: int| 0 <= k < shorter.len() implies (#[trigger] shorter[k]).ftype
            != FunctionType::ApplyCrossTransferAll by {
            assert(shorter[k] == functions[k]);
        }
        lemma_functions_bring_nothing(shard, shorter, receipt, addr);
        assert(functions[functions.len() - 1].ftype != FunctionType::ApplyCrossTransferAll);
    }
}

/// Filling a block from transactions that take in no whole account leaves
/// the accounts that a shard holds as they were.
proof fn lemma_block_brings_nothing(
    shard: ShardView,
    pool: Seq<EntryView>,
    base_fee: u128,
    block: ShardBlockView,
    receipts: Map<u64, ReceiptView>,
    executed: nat,
    addr: Address,
)
    requires
        forall|k: int| 0 <= k < pool.len() ==> brings_no_account((#[trigger] pool[k]).0),
    ensures
        shard.fill_block(pool, base_fee, block, receipts, executed).shard.holds(addr)
            == shard.holds(addr),
    decreases pool.len(),
{
    if pool.len() == 0 || ShardView::block_stops_at(block.gas_used, pool.first().0, base_fee) {
    } else {
        let (transaction, receipt) = pool.first();
        let outcome = shard.execute_transaction(transaction, receipt);
        assert(brings_no_account(pool[0].0));
        let expected = shard.nonce_of(transaction.from);
        if transaction.nonce == expected {
            let bumped = ShardView {
                account_nonce: shard.account_nonce.insert(
                    transaction.from,
                    (expected + 1) as usize,
                ),
                ..shard
            };
            lemma_functions_bring_nothing(bumped, transaction.functions, receipt, addr);
        }
        assert(outcome.shard.holds(addr) == shard.holds(addr));
        let rest = pool.drop_first();
        assert forall|k: int| 0 <= k < rest.len()
            implies brings_no_account((#[trigger] rest[k]).0) by {
            assert(rest[k] == pool[k + 1]);
        }
        if outcome.result == TransactionExecutionResult::Skip {
            lemma_block_brings_nothing(outcome.shard, rest, base_fee, block, receipts, executed,
                addr);
        } else {
            let made = crate::shard::receipt_of(block.number, transaction, outcome);
            let recorded = ShardView {
                receipts: outcome.shard.receipts.insert(transaction.hash, made),
                ..outcome.shard
            };
            lemma_block_brings_nothing(
                recorded,
                rest,
                base_fee,
                ShardBlockView {
                    executed_transactions: block.executed_transactions.push(transaction),
                    gas_used: (block.gas_used + outcome.gas_used) as u128,
                    number: block.number,
                },
                receipts.insert(transaction.hash, made),
                executed + 1,
                addr,
            );
        }
    }
}

/// A slot in which the mempool of a shard holds no transaction that takes
/// in a whole account leaves the accounts that the shard holds as they
/// were: none arrives.
pub proof fn lemma_slot_without_arrival(shard: ShardView, addr: Address)
    requires
        forall|k: int| 0 <= k < shard.mempool.len()
            ==> brings_no_account((#[trigger] shard.mempool[k]).0),
    ensures
        shard.process_slot().holds(addr) == shard.holds(addr),
        !arrives_at(shard, addr),
{
    let base_fee = shard.base_fee();
    let sorted = sorted_mempool(shard.mempool, base_fee);
    let harmless = |e: EntryView| brings_no_account(e.0);
    assert forall|k: int| 0 <= k < shard.mempool.len()
        implies harmless(#[trigger] shard.mempool[k]) by {
        assert(brings_no_account(shard.mempool[k].0));
    }
    lemma_stable_sort_keeps(shard.mempool, priority_rank(base_fee), harmless);
    assert forall|k: int| 0 <= k < sorted.len()
        implies brings_no_account((#[trigger] sorted[k]).0) by {
        assert(harmless(sorted[k]));
    }
    lemma_block_brings_nothing(
        ShardView { mempool: sorted, ..shard },
        sorted,
        base_fee,
        ShardBlockView::empty(shard.blocks.len() as u64),
        Map::empty(),
        0,
        addr,
    );
}

/// In a well-formed chain where no account is held by two shards, the
/// same is true one slot later if and only if no account arrives on a
/// shard while another shard holds it or sees it arrive as well.
pub proof fn lemma_single_owner_after_slot(chain: ShardedBlockchainView)
    requires
        chain.wf(),
        chain.single_owner(),
    ensures
        chain.process_slot().single_owner() <==> forall|a: Address, i: int, j: int|
            0 <= i < chain.shards.len() && 0 <= j < chain.shards.len() && i != j
                && #[trigger] arrives_at(
                chain.shards[i],
                a,
            ) ==> !(#[trigger] chain.shards[j].holds(a)) && !arrives_at(chain.shards[j], a),
{
    let after = chain.process_slot();
    assert forall|a: Address, i: int|
        0 <= i < chain.shards.len() && chain.shards[i].holds(a)
            implies #[trigger] after.shards[i].holds(
        a,
    ) by {
        lemma_process_slot(chain.shards[i]);
        assert(after.shards[i] == chain.shards[i].process_slot());
    }
    let quiet = forall|a: Address, i: int, j: int|
        0 <= i < chain.shards.len() && 0 <= j < chain.shards.len() && i != j
            && #[trigger] arrives_at(
            chain.shards[i],
            a,
        ) ==> !(#[trigger] chain.shards[j].holds(a)) && !arrives_at(chain.shards[j], a);
    if quiet {
        assert forall|a: Address, i: int, j: int|
            0 <= i < after.shards.len() && 0 <= j < after.shards.len() && i != j && (
            #[trigger] after.shards[i].holds(a)) implies !(#[trigger] after.shards[j].holds(a)) by {
            assert(after.shards[i] == chain.shards[i].process_slot());
            assert(after.shards[j] == chain.shards[j].process_slot());
            if after.shards[j].holds(a) {
                if chain.shards[i].holds(a) {
                    if chain.shards[j].holds(a) {
                    } else {
                        assert(arrives_at(chain.shards[j], a));
                    }
                } else {
                    assert(arrives_at(chain.shards[i], a));
                    if !chain.shards[j].holds(a) {
                        assert(arrives_at(chain.shards[j], a));
                    }
                }
            }
        }
    }
    if after.single_owner() {
        assert forall|a: Address, i: int, j: int|
            0 <= i < chain.shards.len() && 0 <= j < chain.shards.len() && i != j
                && #[trigger] arrives_at(
                chain.shards[i],
                a,
            ) implies !(#[trigger] chain.shards[j].holds(a)) && !arrives_at(chain.shards[j], a) by {
            assert(after.shards[i] == chain.shards[i].process_slot());
            assert(after.shards[j] == chain.shards[j].process_slot());
            assert(after.shards[i].holds(a));
            assert(!after.shards[j].holds(a));
        }
    }
}

/// In a well-formed chain where no account is held by two shards, the
/// same is true one slot later if no mempool holds a transaction that
/// takes in a whole account.
pub proof fn lemma_single_owner_without_arrival(chain: ShardedBlockchainView)
    requires
        chain.wf(),
        chain.single_owner(),
        forall|i: int, k: int|
            0 <= i < chain.shards.len() && 0 <= k < chain.shards[i].mempool.len()
                ==> brings_no_account((#[trigger] chain.shards[i].mempool[k]).0),
    ensures
        chain.process_slot().single_owner(),
{
    lemma_single_owner_after_slot(chain);
    assert forall|a: Address, i: int, j: int|
        0 <= i < chain.shards.len() && 0 <= j < chain.shards.len() && i != j
            && #[trigger] arrives_at(
            chain.shards[i],
            a,
        ) implies !(#[trigger] chain.shards[j].holds(a)) && !arrives_at(chain.shards[j], a) by {
        let shard = chain.shards[i];
        assert forall|k: int| 0 <= k < shard.mempool.len() implies brings_no_account(
            (#[trigger] shard.mempool[k]).0,
        ) by {
            assert(brings_no_account(chain.shards[i].mempool[k].0));
        }
        lemma_slot_without_arrival(shard, a);
    }
}

/// After the accounts below `upto` have been deployed on the chain at
/// genesis, a shard holds exactly the accounts whose address falls to it.
pub proof fn lemma_deployed_accounts(upto: nat, shard_id: int, addr: Address)
    requires
        0 <= shard_id < SHARD_NUM,
    ensures
        ShardedBlockchainView::genesis().deploy_accounts(upto).shards.len() == SHARD_NUM,
        ShardedBlockchainView::genesis().deploy_accounts(upto).shards[shard_id].holds(addr) <==>
            addr
            < upto && addr % SHARD_NUM == shard_id,
    decreases upto,
{
    let genesis = ShardedBlockchainView::genesis();
    if upto > 0 {
        lemma_deployed_accounts((upto - 1) as nat, shard_id, addr);
        let before = genesis.deploy_accounts((upto - 1) as nat);
        let last = (upto - 1) as usize;
        if upto - 1 <= usize::MAX {
            assert(last == upto - 1);
        }
    } else {
        assert(genesis.shards[shard_id] == ShardView::genesis(shard_id as usize));
    }
}

/// Right after the setup of a fresh environment no account is held by two
/// shards.
pub proof fn lemma_single_owner_after_setup(graph: UserGraphView, plan: StrategyPlan)
    requires
        graph.nodes.len() <= usize::MAX,
    ensures
        EnvironmentView::fresh().after_setup(graph, plan).blockchain.single_owner(),
{
    let chain = EnvironmentView::fresh().after_setup(graph, plan).blockchain;
    lemma_deployed_accounts(graph.nodes.len(), 0, 0);
    assert forall|a: Address, i: int, j: int|
        0 <= i < chain.shards.len() && 0 <= j < chain.shards.len() && i != j && (
        #[trigger] chain.shards[i].holds(a)) implies !(#[trigger] chain.shards[j].holds(a)) by {
        lemma_deployed_accounts(graph.nodes.len(), i, a);
        lemma_deployed_accounts(graph.nodes.len(), j, a);
    }
}

/// Whether no two shards hold the account `addr`.
pub open spec fn has_one_owner_at_most(chain: ShardedBlockchainView, addr: Address) -> bool {
    forall|i: int, j: int|
        0 <= i < chain.shards.len() && 0 <= j < chain.shards.len() && i != j && (
        #[trigger] chain.shards[i].holds(addr)) ==> !(#[trigger] chain.shards[j].holds(addr))
}

/// Settling an account that has arrived on a shard leaves that shard as
/// its only holder, and gives no other account a second holder.
pub proof fn lemma_settle_leaves_one_owner(
    chain: ShardedBlockchainView,
    addr: Address,
    shard_id: int,
    other: Address,
)
    requires
        chain.wf(),
        chain.addr_to_shard_id.contains_key(addr),
        0 <= shard_id < SHARD_NUM,
        chain.shards[shard_id].accounts.contains_key(addr),
    ensures
        has_one_owner_at_most(chain.settle(addr, shard_id), addr),
        chain.settle(addr, shard_id).shards[shard_id].holds(addr),
        chain.settle(addr, shard_id).addr_to_shard_id[addr] == shard_id,
        has_one_owner_at_most(chain, other) ==> has_one_owner_at_most(
            chain.settle(addr, shard_id),
            other,
        ),
{
    lemma_settle(chain, addr, shard_id, 0);
    let after = chain.settle(addr, shard_id);
    let swept = chain.swept(addr, shard_id);
    assert forall|i: int| 0 <= i < after.shards.len() implies (#[trigger] after.shards[i])
        == swept.shards[i] by {}
    assert(after.shards[shard_id] == chain.shards[shard_id]);
    if has_one_owner_at_most(chain, other) {
        assert forall|i: int, j: int|
            0 <= i < after.shards.len() && 0 <= j < after.shards.len() && i != j && (
            #[trigger] after.shards[i].holds(other)) implies !(#[trigger] after.shards[j].holds(
            other,
        )) by {
            assert(after.shards[i] == swept.shards[i]);
            assert(after.shards[j] == swept.shards[j]);
            if after.shards[j].holds(other) {
                assert(chain.shards[i].holds(other));
                assert(chain.shards[j].holds(other));
            }
        }
    }
}

} // verus!
