use shargrila::parameters::{
    BLOCK_GAS_LIMIT, BLOCK_GAS_TARGET, INITIAL_BASE_FEE, MAX_GASPRICE,
};
use shargrila::{
    Account, Function, FunctionType, Shard, ShardState, Transaction,
};

fn transfer(from: usize, to: usize, shard_id: usize, fee_cap: u128, nonce: usize) -> Transaction {
    Transaction::new(
        from,
        to,
        shard_id,
        vec![Function {
            source: from,
            target: to,
            ftype: FunctionType::Transfer,
            calldata: String::new(),
        }],
        1_000_000_000,
        fee_cap,
        nonce,
    )
}

#[test]
fn base_fee_is_unchanged_at_target() {
    assert_eq!(
        ShardState::compute_updated_gasprice(INITIAL_BASE_FEE, BLOCK_GAS_TARGET),
        INITIAL_BASE_FEE
    );
}

#[test]
fn base_fee_falls_by_an_eighth_after_an_empty_block() {
    assert_eq!(ShardState::compute_updated_gasprice(INITIAL_BASE_FEE, 0), 875_000_000);
    assert_eq!(ShardState::compute_updated_gasprice(7, 0), 7);
    assert_eq!(ShardState::compute_updated_gasprice(9, 0), 8);
}

#[test]
fn base_fee_rises_by_an_eighth_after_a_full_block() {
    assert_eq!(
        ShardState::compute_updated_gasprice(INITIAL_BASE_FEE, BLOCK_GAS_LIMIT),
        1_125_000_000
    );
    assert_eq!(
        ShardState::compute_updated_gasprice(INITIAL_BASE_FEE, 15_000_000),
        1_062_500_000
    );
}

#[test]
fn base_fee_saturates_under_full_blocks() {
    let mut fee = INITIAL_BASE_FEE;
    for _ in 0..100 {
        let next = ShardState::compute_updated_gasprice(fee, BLOCK_GAS_LIMIT);
        assert!(next >= fee);
        assert!(next <= MAX_GASPRICE);
        fee = next;
    }
    assert_eq!(fee, MAX_GASPRICE);
}

#[test]
fn empty_shard_follows_the_fee_schedule() {
    let mut shard = Shard::new(0);
    let mut expected = INITIAL_BASE_FEE;
    for slot in 0..10 {
        assert_eq!(shard.states[slot].base_fee, expected);
        shard.process_slot();
        assert_eq!(shard.blocks[slot].gas_used, 0);
        assert_eq!(shard.blocks[slot].number, slot as u64);
        expected -= expected / 8;
    }
    assert_eq!(shard.states.len(), shard.blocks.len() + 1);
    assert_eq!(shard.get_base_fee(), expected);
    assert_eq!(shard.get_base_fee(), 263_075_578);
}

#[test]
fn transaction_hash_is_sdbm_of_the_triple() {
    assert_eq!(Transaction::generate_transaction_hash(0, 0, 0), 0);
    let mut expected: u64 = 0;
    let mut bytes = Vec::new();
    bytes.extend_from_slice(&3u64.to_le_bytes());
    bytes.extend_from_slice(&5u64.to_le_bytes());
    bytes.extend_from_slice(&7u64.to_le_bytes());
    for b in bytes {
        expected = (b as u64).wrapping_add(expected.wrapping_mul(65599));
    }
    assert_eq!(Transaction::generate_transaction_hash(3, 5, 7), expected);
    assert_ne!(
        Transaction::generate_transaction_hash(3, 5, 7),
        Transaction::generate_transaction_hash(3, 5, 8)
    );
}

#[test]
fn transactions_are_equal_by_hash() {
    let a = transfer(1, 2, 0, 10, 4);
    let mut b = transfer(1, 9, 0, 99, 4);
    assert!(a == b);
    b.hash += 1;
    assert!(a != b);
}

#[test]
fn intra_shard_transfer_is_executed() {
    let mut shard = Shard::new(0);
    shard.insert_account(Account::new(0, 0));
    shard.insert_account(Account::new(64, 0));
    let tx = transfer(0, 64, 0, 2 * INITIAL_BASE_FEE, 0);
    let hash = tx.hash;
    shard.push_transaction(tx, None);
    shard.process_slot();
    assert_eq!(shard.blocks[0].executed_transactions.len(), 1);
    assert_eq!(shard.blocks[0].gas_used, 21_000);
    assert!(shard.receipts[&hash].status);
    assert_eq!(shard.account_nonce[&0], 1);
    assert!(shard.mempool.is_empty());
    assert_eq!(shard.states[1].receipts.len(), 1);
}

#[test]
fn fee_cap_equal_to_base_fee_is_rejected() {
    let mut shard = Shard::new(0);
    shard.insert_account(Account::new(0, 0));
    shard.push_transaction(transfer(0, 0, 0, INITIAL_BASE_FEE, 0), None);
    shard.process_slot();
    assert!(shard.blocks[0].executed_transactions.is_empty());
    assert_eq!(shard.mempool.len(), 1);
    // One slot later the base fee has fallen below the cap.
    shard.process_slot();
    assert_eq!(shard.blocks[1].executed_transactions.len(), 1);
}

#[test]
fn account_moves_between_shards() {
    let mut from = Shard::new(3);
    let mut to = Shard::new(9);
    from.insert_account(Account { addr: 3, shard_id: 3, balance: 12_345 });
    let create = Transaction::new(
        3,
        3,
        3,
        vec![Function {
            source: 3,
            target: 3,
            ftype: FunctionType::CreateCrossTransferAll,
            calldata: String::new(),
        }],
        1,
        2 * INITIAL_BASE_FEE,
        0,
    );
    let create_hash = create.hash;
    from.push_transaction(create, None);
    from.process_slot();
    assert!(from.get_account(3).is_none());
    assert_eq!(from.get_moving_account(3).unwrap().balance, 12_345);
    let receipt = from.receipts[&create_hash].clone();
    assert!(receipt.status);
    assert_eq!(receipt.data, "[3,3,12345]");

    let apply = Transaction::new(
        3,
        3,
        9,
        vec![Function {
            source: 3,
            target: 3,
            ftype: FunctionType::ApplyCrossTransferAll,
            calldata: "3".to_string(),
        }],
        1,
        2 * INITIAL_BASE_FEE,
        0,
    );
    to.push_transaction(apply, Some(receipt));
    to.process_slot();
    let arrived = to.get_account(3).unwrap();
    assert_eq!(arrived.addr, 3);
    assert_eq!(arrived.balance, 12_345);
    assert_eq!(arrived.shard_id, 9);
}
