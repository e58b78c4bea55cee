use shargrila::mempool::sort_mempool;
use shargrila::parameters::{BLOCK_GAS_LIMIT, INITIAL_BASE_FEE, MEMPOOL_TRANSACTION_NUM};
use shargrila::{
    Account, Function, FunctionType, Receipt, Shard, ShardBlock, ShardState, Transaction,
    TransactionExecutionResult,
};

fn function(source: usize, target: usize, ftype: FunctionType) -> Function {
    Function { source, target, ftype, calldata: String::new() }
}

fn transaction(
    from: usize,
    shard_id: usize,
    ftype: FunctionType,
    gas_premium: u128,
    fee_cap: u128,
    nonce: usize,
) -> Transaction {
    Transaction::new(
        from,
        from,
        shard_id,
        vec![function(from, from, ftype)],
        gas_premium,
        fee_cap,
        nonce,
    )
}

fn shard_with_accounts(id: usize, addrs: &[usize]) -> Shard {
    let mut shard = Shard::new(id);
    for addr in addrs {
        shard.insert_account(Account::new(*addr, id));
    }
    shard
}

#[test]
fn new_account_has_a_tenth_of_all_wei() {
    let account = Account::new(7, 3);
    assert_eq!(account.addr, 7);
    assert_eq!(account.shard_id, 3);
    assert_eq!(account.balance, 34_028_236_692_093_846_346_337_460_743_176_821_145);
}

#[test]
fn gas_depends_on_the_kind_of_function() {
    assert_eq!(function(0, 0, FunctionType::Transfer).gas(), 21_000);
    assert_eq!(function(0, 0, FunctionType::CreateCrossTransfer).gas(), 31_785);
    assert_eq!(function(0, 0, FunctionType::ApplyCrossTransfer).gas(), 52_820);
    assert_eq!(function(0, 0, FunctionType::CreateCrossTransferAll).gas(), 31_785);
    assert_eq!(function(0, 0, FunctionType::ApplyCrossTransferAll).gas(), 52_820);
}

#[test]
fn new_transaction_keeps_its_parts() {
    let tx = Transaction::new(
        1,
        2,
        3,
        vec![
            function(1, 2, FunctionType::Transfer),
            function(1, 1, FunctionType::CreateCrossTransfer),
        ],
        4,
        5,
        6,
    );
    assert_eq!((tx.from, tx.to, tx.shard_id, tx.nonce), (1, 2, 3, 6));
    assert_eq!((tx.gas_premium, tx.fee_cap, tx.gas_limit), (4, 5, u128::MAX));
    assert_eq!(tx.hash, Transaction::generate_transaction_hash(1, 3, 6));
    assert_eq!(tx.estimated_gas(), 21_000 + 31_785);
    let copy = tx.clone();
    assert_eq!(copy.functions.len(), 2);
    assert_eq!(copy.hash, tx.hash);
}

#[test]
fn effective_priority_is_capped() {
    let tx = transaction(0, 0, FunctionType::Transfer, 10, 100, 0);
    assert_eq!(tx.effective_priority(50), 60);
    assert_eq!(tx.effective_priority(90), 100);
    assert_eq!(tx.effective_priority(500), 100);
    let greedy = transaction(0, 0, FunctionType::Transfer, u128::MAX, 7, 0);
    assert_eq!(greedy.effective_priority(3), 7);
    let boundless = transaction(0, 0, FunctionType::Transfer, u128::MAX - 1, u128::MAX, 0);
    assert_eq!(boundless.effective_priority(0), u128::MAX - 1);
    assert_eq!(boundless.effective_priority(5), u128::MAX);
}

#[test]
fn receipt_takes_sender_and_hash_from_the_transaction() {
    let tx = transaction(4, 1, FunctionType::Transfer, 1, 2, 3);
    let receipt = Receipt::new(9, &tx, 21_000, true, "data".to_string());
    assert_eq!(receipt.slot_number, 9);
    assert_eq!(receipt.from, 4);
    assert_eq!(receipt.to, 4);
    assert_eq!(receipt.gas_used, 21_000);
    assert!(receipt.status);
    assert_eq!(receipt.transaction_hash, tx.hash);
    assert_eq!(receipt.data, "data");
}

#[test]
fn new_block_and_state_are_empty() {
    let block = ShardBlock::new(12);
    assert_eq!(block.number, 12);
    assert_eq!(block.gas_used, 0);
    assert!(block.executed_transactions.is_empty());
    let state = ShardState::new(77);
    assert_eq!(state.base_fee, 77);
    assert!(state.receipts.is_empty());
}

#[test]
fn new_shard_stands_at_genesis() {
    let shard = Shard::new(5);
    assert_eq!(shard.id, 5);
    assert!(shard.blocks.is_empty());
    assert_eq!(shard.states.len(), 1);
    assert_eq!(shard.get_base_fee(), INITIAL_BASE_FEE);
    assert!(shard.mempool.is_empty());
    assert!(shard.get_account(0).is_none());
    assert!(shard.get_moving_account(0).is_none());
}

#[test]
fn mempool_is_sorted_by_priority_and_keeps_ties_in_order() {
    let mut pool = vec![
        (transaction(1, 0, FunctionType::Transfer, 5, 1_000, 0), None),
        (transaction(2, 0, FunctionType::Transfer, 9, 1_000, 0), None),
        (transaction(3, 0, FunctionType::Transfer, 5, 1_000, 0), None),
        (transaction(4, 0, FunctionType::Transfer, 50, 120, 0), None),
        (transaction(5, 0, FunctionType::Transfer, 9, 1_000, 0), None),
    ];
    sort_mempool(&mut pool, 100);
    let order: Vec<usize> = pool.iter().map(|entry| entry.0.from).collect();
    // Priorities: 105, 109, 105, 120, 109.
    assert_eq!(order, vec![4, 2, 5, 1, 3]);
}

#[test]
fn functions_fail_without_their_accounts() {
    let mut shard = shard_with_accounts(0, &[1]);
    let none = None;
    assert_eq!(shard.execute_function(&function(1, 9, FunctionType::Transfer), &none), (true, None));
    assert_eq!(shard.execute_function(&function(9, 1, FunctionType::Transfer), &none), (true, None));
    assert_eq!(shard.execute_function(&function(8, 9, FunctionType::Transfer), &none), (false, None));
    assert_eq!(
        shard.execute_function(&function(1, 1, FunctionType::CreateCrossTransfer), &none),
        (true, None)
    );
    assert_eq!(
        shard.execute_function(&function(2, 1, FunctionType::CreateCrossTransfer), &none),
        (false, None)
    );
    assert_eq!(
        shard.execute_function(&function(9, 9, FunctionType::CreateCrossTransfer), &none),
        (false, None)
    );
    assert_eq!(
        shard.execute_function(&function(9, 9, FunctionType::ApplyCrossTransfer), &none),
        (true, None)
    );
    assert_eq!(
        shard.execute_function(&function(9, 9, FunctionType::CreateCrossTransferAll), &none),
        (false, None)
    );
    assert_eq!(
        shard.execute_function(&function(9, 9, FunctionType::ApplyCrossTransferAll), &none),
        (false, None)
    );
    assert!(shard.get_account(1).is_some());
    assert!(shard.get_moving_account(1).is_none());
}

#[test]
fn apply_all_needs_a_payload_that_stands_for_an_account() {
    let mut shard = Shard::new(2);
    let tx = transaction(9, 1, FunctionType::CreateCrossTransferAll, 1, 2, 0);
    let apply = function(9, 9, FunctionType::ApplyCrossTransferAll);
    for payload in ["", "{}", "[1,2]", "[1,2,3,4]", "[1,2,-3]", "nonsense"] {
        let receipt = Some(Receipt::new(0, &tx, 0, true, payload.to_string()));
        assert_eq!(shard.execute_function(&apply, &receipt), (false, None));
        assert!(shard.accounts.is_empty());
    }
    let receipt = Some(Receipt::new(
        0,
        &tx,
        0,
        true,
        " [ 9 , 1 , 340282366920938463463374607431768211455 ] ".to_string(),
    ));
    assert_eq!(shard.execute_function(&apply, &receipt), (true, None));
    let account = shard.get_account(9).unwrap();
    assert_eq!((account.addr, account.shard_id, account.balance), (9, 2, u128::MAX));
}

#[test]
fn move_account_gives_the_text_of_the_account() {
    let mut shard = Shard::new(4);
    shard.insert_account(Account { addr: 11, shard_id: 0, balance: u128::MAX });
    assert_eq!(shard.get_account(11).unwrap().shard_id, 4);
    let data = shard.move_account(11);
    assert_eq!(data, "[11,4,340282366920938463463374607431768211455]");
    assert!(shard.get_account(11).is_none());
    assert_eq!(shard.get_moving_account(11).unwrap().balance, u128::MAX);
    shard.remove_account(11);
    assert!(shard.get_moving_account(11).is_none());
}

#[test]
fn transaction_with_a_used_nonce_fails_for_free() {
    let mut shard = shard_with_accounts(0, &[1]);
    let first = transaction(1, 0, FunctionType::Transfer, 1, 2, 0);
    let (result, data, gas) = shard.execute_transaction(&first, &None);
    assert!(result == TransactionExecutionResult::Success);
    assert_eq!((data.as_str(), gas), ("", 21_000));
    let (result, _, gas) = shard.execute_transaction(&first, &None);
    assert!(result == TransactionExecutionResult::Fail);
    assert_eq!(gas, 0);
    assert_eq!(shard.account_nonce[&1], 1);
    let ahead = transaction(1, 0, FunctionType::Transfer, 1, 2, 3);
    let (result, _, gas) = shard.execute_transaction(&ahead, &None);
    assert!(result == TransactionExecutionResult::Skip);
    assert_eq!(gas, 0);
    assert_eq!(shard.account_nonce[&1], 1);
}

#[test]
fn failing_function_fails_the_transaction_but_costs_gas() {
    let mut shard = shard_with_accounts(0, &[1]);
    let tx = Transaction::new(
        1,
        1,
        0,
        vec![
            function(8, 9, FunctionType::Transfer),
            function(1, 1, FunctionType::CreateCrossTransferAll),
            function(1, 1, FunctionType::Transfer),
        ],
        1,
        2,
        0,
    );
    let (result, data, gas) = shard.execute_transaction(&tx, &None);
    assert!(result == TransactionExecutionResult::Fail);
    assert_eq!(gas, 21_000 + 31_785 + 21_000);
    // The account has left all the same, and its text is the data.
    assert_eq!(data, format!("[1,0,{}]", u128::MAX / 10));
    assert!(shard.get_moving_account(1).is_some());
    assert_eq!(shard.account_nonce[&1], 1);
}

#[test]
fn transaction_without_functions_succeeds() {
    let mut shard = Shard::new(0);
    let tx = Transaction::new(1, 1, 0, vec![], 1, 2, 0);
    let (result, data, gas) = shard.execute_transaction(&tx, &None);
    assert!(result == TransactionExecutionResult::Success);
    assert_eq!((data.as_str(), gas), ("", 0));
}

#[test]
fn block_stops_at_the_gas_limit() {
    let mut shard = shard_with_accounts(0, &[0]);
    let per_transaction = 52_820;
    let fitting = (BLOCK_GAS_LIMIT / per_transaction) as usize;
    for nonce in 0..fitting + 5 {
        shard.push_transaction(
            transaction(0, 0, FunctionType::ApplyCrossTransfer, 1, 2 * INITIAL_BASE_FEE, nonce),
            None,
        );
    }
    shard.process_slot();
    assert_eq!(shard.blocks[0].executed_transactions.len(), fitting);
    assert_eq!(shard.blocks[0].gas_used, fitting as u128 * per_transaction);
    assert!(shard.blocks[0].gas_used <= BLOCK_GAS_LIMIT);
    assert_eq!(shard.mempool.len(), 5);
    assert_eq!(shard.states[1].receipts.len(), fitting);
    // The block was fuller than the target: the base fee has risen.
    assert!(shard.states[1].base_fee > INITIAL_BASE_FEE);
    assert_eq!(
        shard.states[1].base_fee,
        ShardState::compute_updated_gasprice(INITIAL_BASE_FEE, shard.blocks[0].gas_used)
    );
}

#[test]
fn mempool_is_cut_to_its_bound() {
    let mut shard = shard_with_accounts(0, &[0]);
    for nonce in 0..MEMPOOL_TRANSACTION_NUM + 20 {
        // The fee cap is not above the base fee: nothing runs.
        shard.push_transaction(
            transaction(0, 0, FunctionType::Transfer, nonce as u128, INITIAL_BASE_FEE, nonce),
            None,
        );
    }
    shard.process_slot();
    assert!(shard.blocks[0].executed_transactions.is_empty());
    assert_eq!(shard.mempool.len(), MEMPOOL_TRANSACTION_NUM);
}

#[test]
fn skipped_transaction_waits_for_its_nonce() {
    let mut shard = shard_with_accounts(0, &[0]);
    // The waiting transaction offers less than the others.
    let waiting = transaction(0, 0, FunctionType::Transfer, 1, 2 * INITIAL_BASE_FEE, 5);
    let waiting_hash = waiting.hash;
    shard.push_transaction(waiting, None);
    shard.process_slot();
    assert!(shard.blocks[0].executed_transactions.is_empty());
    assert_eq!(shard.mempool.len(), 1);
    assert!(shard.receipts.is_empty());
    for nonce in 0..4usize {
        shard.push_transaction(
            transaction(0, 0, FunctionType::Transfer, 10, 2 * INITIAL_BASE_FEE, nonce),
            None,
        );
        shard.process_slot();
        let block = shard.blocks.last().unwrap();
        assert_eq!(block.executed_transactions.len(), 1);
        assert_eq!(block.executed_transactions[0].nonce, nonce);
        assert_eq!(shard.mempool.len(), 1);
        assert_eq!(shard.mempool[0].0.hash, waiting_hash);
    }
    // Once the nonce before it is used, the waiting transaction runs.
    shard.push_transaction(
        transaction(0, 0, FunctionType::Transfer, 10, 2 * INITIAL_BASE_FEE, 4),
        None,
    );
    shard.process_slot();
    let block = shard.blocks.last().unwrap();
    assert_eq!(block.executed_transactions.len(), 2);
    assert_eq!(block.executed_transactions[0].nonce, 4);
    assert_eq!(block.executed_transactions[1].hash, waiting_hash);
    assert!(shard.receipts[&waiting_hash].status);
    assert!(shard.mempool.is_empty());
    assert_eq!(shard.account_nonce[&0], 6);
}

#[test]
fn as_many_entries_leave_the_head_as_transactions_ran() {
    let mut shard = shard_with_accounts(0, &[0]);
    // The skipped transaction stands first; the one that runs stands second.
    shard.push_transaction(transaction(0, 0, FunctionType::Transfer, 9, 2 * INITIAL_BASE_FEE, 5), None);
    shard.push_transaction(transaction(0, 0, FunctionType::Transfer, 1, 2 * INITIAL_BASE_FEE, 0), None);
    shard.process_slot();
    assert_eq!(shard.blocks[0].executed_transactions.len(), 1);
    assert_eq!(shard.blocks[0].executed_transactions[0].nonce, 0);
    assert_eq!(shard.mempool.len(), 1);
    assert_eq!(shard.mempool[0].0.nonce, 0);
}
