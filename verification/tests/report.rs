use shargrila::parameters::{INITIAL_BASE_FEE, SHARD_NUM};
use shargrila::probability::PROBABILITY_ONE;
use shargrila::{
    Function, FunctionType, Simulator, StrategyPlan, StrategyType, Transaction, UserGraph,
    UserGraphEdge,
};

fn simulator_with_transfers(duration: u64) -> Simulator {
    // User 0 transfers to user 64 on its own shard, and user 1 to user 2
    // on another shard. User 1 is a switcher.
    let mut graph = UserGraph::with_nodes(65);
    graph.insert_edge(UserGraphEdge::new(0, 64, 2 * INITIAL_BASE_FEE, PROBABILITY_ONE));
    graph.insert_edge(UserGraphEdge::new(1, 2, 10 * INITIAL_BASE_FEE, PROBABILITY_ONE));
    let plan = StrategyPlan {
        minimum_bound: 0,
        weighted_random_bound: 0,
        decreasing_minimum_bound: 0,
        popular_user_exists: false,
        popular_user_is_switcher: false,
    };
    let mut simulator = Simulator::new(duration);
    simulator.environment.setup(graph, plan);
    simulator.environment.users[1].user_type = StrategyType::DecreasingMinimum;
    simulator.run();
    simulator
}

#[test]
fn reports_have_a_row_for_each_slot() {
    let simulator = simulator_with_transfers(4);
    let fees = simulator.base_fee_records();
    assert_eq!(fees.len(), 4);
    for (slot, row) in fees.iter().enumerate() {
        assert_eq!(row.len(), SHARD_NUM);
        for (shard_id, fee) in row.iter().enumerate() {
            assert_eq!(*fee, simulator.environment.blockchain.shards[shard_id].states[slot].base_fee);
        }
    }
    assert_eq!(fees[0], vec![INITIAL_BASE_FEE; SHARD_NUM]);

    let users = simulator.active_user_num_records();
    assert_eq!(users.len(), 4);
    assert_eq!(users[3][0], 2);
    assert_eq!(users[3][1], 1);
    assert_eq!(users[3][63], 1);
    let mempools = simulator.mempool_records();
    assert_eq!(mempools.len(), 4);
    assert!(mempools.iter().all(|row| row.iter().all(|size| *size == 0)));
}

#[test]
fn users_are_booked_the_base_fee_for_their_first_function() {
    let simulator = simulator_with_transfers(4);
    let records = simulator.users_records().unwrap();
    assert_eq!(records.len(), 65);
    let fees = simulator.base_fee_records();
    // User 0 sends a transfer in every slot.
    let paid: u128 = (0..4).map(|slot| fees[slot][0] * 21_000).sum();
    assert_eq!(records[0].addr, 0);
    assert_eq!(records[0].strategy, 0);
    assert_eq!(records[0].total_fee, paid);
    assert_eq!(records[0].transaction_num, 4);
    // User 1 sends the first leg in slots 0 and 2, the second in 1 and 3.
    let paid = fees[0][1] * 31_785 + fees[1][2] * 52_820 + fees[2][1] * 31_785
        + fees[3][2] * 52_820;
    assert_eq!(records[1].strategy, 3);
    assert_eq!(records[1].total_fee, paid);
    assert_eq!(records[1].transaction_num, 4);
    assert_eq!((records[2].total_fee, records[2].transaction_num), (0, 0));
    assert_eq!(records[64].addr, 64);
}

#[test]
fn functions_are_counted_by_kind_and_by_switching() {
    let simulator = simulator_with_transfers(4);
    let rows = simulator.function_num_records().unwrap();
    assert_eq!(rows.len(), 4);
    assert_eq!(rows[0], vec![1, 0, 0, 0, 0, 0, 1, 0, 0, 0]);
    assert_eq!(rows[1], vec![1, 0, 0, 0, 0, 0, 0, 1, 0, 0]);
    assert_eq!(rows[2], vec![1, 0, 0, 0, 0, 0, 1, 0, 0, 0]);
    assert_eq!(rows[3], vec![1, 0, 0, 0, 0, 0, 0, 1, 0, 0]);
}

#[test]
fn strangers_cannot_be_reported() {
    let mut simulator = simulator_with_transfers(1);
    assert!(simulator.users_records().is_some());
    assert!(simulator.function_num_records().is_some());
    // A transaction of a sender that is no user.
    let stranger = Transaction::new(
        1_000,
        0,
        0,
        vec![Function {
            source: 1_000,
            target: 0,
            ftype: FunctionType::Transfer,
            calldata: String::new(),
        }],
        1,
        1,
        0,
    );
    simulator.environment.blockchain.shards[0].blocks[0].executed_transactions.push(stranger);
    assert!(simulator.users_records().is_none());
    assert!(simulator.function_num_records().is_none());
    // A transaction without a function cannot be booked, but is counted.
    let bare = Transaction::new(0, 0, 0, vec![], 1, 1, 0);
    simulator.environment.blockchain.shards[0].blocks[0].executed_transactions[1] = bare;
    assert!(simulator.users_records().is_none());
    assert_eq!(simulator.function_num_records().unwrap()[0][0], 1);
}

#[test]
fn totals_that_do_not_fit_are_not_reported() {
    let mut simulator = simulator_with_transfers(1);
    simulator.environment.blockchain.shards[0].states[0].base_fee = u128::MAX;
    assert!(simulator.users_records().is_none());
    simulator.environment.blockchain.shards[0].states[0].base_fee = u128::MAX / 21_000;
    assert_eq!(
        simulator.users_records().unwrap()[0].total_fee,
        u128::MAX / 21_000 * 21_000
    );
}

#[test]
fn strategies_and_kinds_have_their_places() {
    assert_eq!(StrategyType::NonSwitcher.ordinal(), 0);
    assert_eq!(StrategyType::WeightedRandom.ordinal(), 1);
    assert_eq!(StrategyType::Minimum.ordinal(), 2);
    assert_eq!(StrategyType::DecreasingMinimum.ordinal(), 3);
    assert_eq!(FunctionType::Transfer.ordinal(), 0);
    assert_eq!(FunctionType::CreateCrossTransfer.ordinal(), 1);
    assert_eq!(FunctionType::ApplyCrossTransfer.ordinal(), 2);
    assert_eq!(FunctionType::CreateCrossTransferAll.ordinal(), 3);
    assert_eq!(FunctionType::ApplyCrossTransferAll.ordinal(), 4);
}
