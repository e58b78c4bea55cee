use shargrila::parameters::{
    INITIAL_BASE_FEE, INITIAL_SETUP_SLOTS, SHARD_NUM,
};
use shargrila::probability::PROBABILITY_ONE;
use shargrila::{
    Environment, FunctionType, Simulator, StrategyPlan, StrategyType, UserGraph, UserGraphEdge,
};

fn nobody_switches() -> StrategyPlan {
    StrategyPlan {
        minimum_bound: 0,
        weighted_random_bound: 0,
        decreasing_minimum_bound: 0,
        popular_user_exists: false,
        popular_user_is_switcher: false,
    }
}

fn graph_with_edge(user_num: usize, from: usize, to: usize, fee_cap: u128, p: u64) -> UserGraph {
    let mut graph = UserGraph::with_nodes(user_num);
    graph.insert_edge(UserGraphEdge::new(from, to, fee_cap, p));
    graph
}

#[test]
fn no_users_means_empty_blocks_and_falling_fees() {
    let mut simulator = Simulator::new(10);
    simulator.run();
    let chain = &simulator.environment.blockchain;
    assert_eq!(chain.slot, 10);
    assert_eq!(chain.epoch, 0);
    assert_eq!(chain.shards.len(), SHARD_NUM);
    for shard in chain.shards.iter() {
        assert_eq!(shard.blocks.len(), 10);
        assert_eq!(shard.states.len(), 11);
        let mut expected = INITIAL_BASE_FEE;
        for slot in 0..10 {
            assert_eq!(shard.blocks[slot].gas_used, 0);
            assert!(shard.blocks[slot].executed_transactions.is_empty());
            assert_eq!(shard.states[slot].base_fee, expected);
            expected -= expected / 8;
        }
        assert_eq!(shard.states[10].base_fee, 263_075_578);
    }
    assert_eq!(simulator.environment.user_num_mem.len(), 10);
    assert_eq!(simulator.environment.mempool_tx_mem.len(), 10);
}

#[test]
fn epoch_goes_up_every_32_slots() {
    let mut simulator = Simulator::new(65);
    simulator.run();
    assert_eq!(simulator.environment.blockchain.slot, 65);
    assert_eq!(simulator.environment.blockchain.epoch, 2);
}

#[test]
fn setup_deploys_each_account_on_the_shard_of_its_address() {
    let mut environment = Environment::new();
    let plan = StrategyPlan {
        minimum_bound: 2,
        weighted_random_bound: 3,
        decreasing_minimum_bound: 5,
        popular_user_exists: false,
        popular_user_is_switcher: false,
    };
    environment.setup(UserGraph::with_nodes(130), plan);
    assert_eq!(environment.users.len(), 130);
    assert_eq!(environment.blockchain.account_num, 130);
    for addr in 0..130usize {
        let home = addr % SHARD_NUM;
        assert_eq!(environment.blockchain.addr_to_shard_id[&addr], home);
        for (id, shard) in environment.blockchain.shards.iter().enumerate() {
            assert_eq!(shard.get_account(addr).is_some(), id == home);
            assert!(shard.get_moving_account(addr).is_none());
        }
        let account = environment.blockchain.shards[home].get_account(addr).unwrap();
        assert_eq!(account.addr, addr);
        assert_eq!(account.shard_id, home);
        assert_eq!(account.balance, u128::MAX / 10);
        assert_eq!(environment.users[addr].account_addr, addr);
    }
    assert!(environment.users[0].user_type == StrategyType::Minimum);
    assert!(environment.users[1].user_type == StrategyType::Minimum);
    assert!(environment.users[2].user_type == StrategyType::WeightedRandom);
    assert!(environment.users[3].user_type == StrategyType::DecreasingMinimum);
    assert!(environment.users[4].user_type == StrategyType::DecreasingMinimum);
    assert!(environment.users[5].user_type == StrategyType::NonSwitcher);
}

#[test]
fn popular_user_has_its_own_strategy() {
    let plan = StrategyPlan {
        minimum_bound: 0,
        weighted_random_bound: 10,
        decreasing_minimum_bound: 10,
        popular_user_exists: true,
        popular_user_is_switcher: true,
    };
    assert!(plan.strategy_for(0) == StrategyType::Minimum);
    assert!(plan.strategy_for(1) == StrategyType::WeightedRandom);
    let plan = StrategyPlan { popular_user_is_switcher: false, ..plan };
    assert!(plan.strategy_for(0) == StrategyType::NonSwitcher);
    assert!(plan.strategy_for(10) == StrategyType::NonSwitcher);
}

#[test]
fn transfer_inside_a_shard() {
    // Users 0 and 64 live on shard 0.
    let mut environment = Environment::new();
    environment.setup(
        graph_with_edge(65, 0, 64, 2 * INITIAL_BASE_FEE, PROBABILITY_ONE),
        nobody_switches(),
    );
    environment.process();
    let shard = &environment.blockchain.shards[0];
    assert_eq!(shard.blocks[0].executed_transactions.len(), 1);
    let executed = &shard.blocks[0].executed_transactions[0];
    assert_eq!(executed.from, 0);
    assert_eq!(executed.to, 64);
    assert_eq!(executed.nonce, 0);
    assert_eq!(executed.fee_cap, 2 * INITIAL_BASE_FEE);
    assert_eq!(executed.functions.len(), 1);
    assert!(executed.functions[0].ftype == FunctionType::Transfer);
    assert_eq!(shard.blocks[0].gas_used, 21_000);
    assert!(shard.receipts[&executed.hash].status);
    assert_eq!(shard.account_nonce[&0], 1);
    assert_eq!(environment.users[0].nonce_in_shard[0], 1);
    assert_eq!(environment.users[0].unconfirmed_transactions_in_shard[0].len(), 1);
    assert_eq!(environment.mempool_tx_mem[0][0], 0);
    assert_eq!(environment.user_num_mem[0][0], 2);
    assert_eq!(environment.user_num_mem[0][1], 1);

    environment.process();
    // The first transfer is confirmed, and the next one is under way.
    let shard = &environment.blockchain.shards[0];
    assert_eq!(shard.blocks[1].executed_transactions.len(), 1);
    assert_eq!(shard.blocks[1].executed_transactions[0].nonce, 1);
    assert_eq!(environment.users[0].nonce_in_shard[0], 2);
    assert_eq!(environment.users[0].unconfirmed_transactions_in_shard[0].len(), 1);
}

#[test]
fn transfer_to_another_shard_takes_two_legs() {
    let fee_cap = 10 * INITIAL_BASE_FEE;
    let leg_fee_cap = fee_cap * 21_000 / (31_785 + 52_820);
    let mut environment = Environment::new();
    environment.setup(graph_with_edge(2, 0, 1, fee_cap, PROBABILITY_ONE), nobody_switches());

    environment.process();
    let create = environment.blockchain.shards[0].blocks[0].executed_transactions[0].clone();
    assert!(create.functions[0].ftype == FunctionType::CreateCrossTransfer);
    assert_eq!(create.functions[0].source, 0);
    assert_eq!(create.functions[0].target, 0);
    assert_eq!(create.to, 1);
    assert_eq!(create.fee_cap, leg_fee_cap);
    assert_eq!(environment.blockchain.shards[0].blocks[0].gas_used, 31_785);
    assert!(environment.blockchain.shards[1].blocks[0].executed_transactions.is_empty());
    {
        let queue = &environment.users[0].unsent_transactions_in_shard[1];
        assert_eq!(queue.len(), 1);
        assert!(queue[0].0.functions[0].ftype == FunctionType::ApplyCrossTransfer);
        assert_eq!(queue[0].0.shard_id, 1);
        assert_eq!(queue[0].1, create.hash);
    }

    environment.process();
    let shard = &environment.blockchain.shards[1];
    assert_eq!(shard.blocks[1].executed_transactions.len(), 1);
    let apply = &shard.blocks[1].executed_transactions[0];
    assert!(apply.functions[0].ftype == FunctionType::ApplyCrossTransfer);
    assert_eq!(apply.functions[0].target, 1);
    assert_eq!(apply.nonce, 0);
    assert_eq!(shard.blocks[1].gas_used, 52_820);
    assert!(shard.receipts[&apply.hash].status);
    assert!(environment.users[0].unsent_transactions_in_shard[1].is_empty());
    assert_eq!(environment.users[0].nonce_in_shard[1], 1);
}

#[test]
fn fee_cap_at_the_base_fee_sends_nothing() {
    let mut environment = Environment::new();
    environment.setup(
        graph_with_edge(65, 0, 64, INITIAL_BASE_FEE, PROBABILITY_ONE),
        nobody_switches(),
    );
    environment.process();
    assert!(environment.blockchain.shards[0].blocks[0].executed_transactions.is_empty());
    assert_eq!(environment.mempool_tx_mem[0][0], 0);
    assert_eq!(environment.users[0].nonce_in_shard[0], 0);
    // One slot later the base fee is below the cap.
    environment.process();
    assert_eq!(environment.blockchain.shards[0].blocks[1].executed_transactions.len(), 1);
}

#[test]
fn edge_of_probability_zero_is_never_used() {
    let mut environment = Environment::new();
    environment.setup(graph_with_edge(65, 0, 64, 2 * INITIAL_BASE_FEE, 0), nobody_switches());
    for _ in 0..50 {
        environment.process();
    }
    // Only the draw 0 is not above the probability 0.
    for block in environment.blockchain.shards[0].blocks.iter() {
        assert!(block.executed_transactions.is_empty());
    }
}

#[test]
fn minimum_user_moves_to_the_shard_of_its_targets() {
    // User 0 lives on shard 0; its targets 5 and 69 live on shard 5.
    let mut graph = UserGraph::with_nodes(70);
    graph.insert_edge(UserGraphEdge::new(0, 5, 400 * INITIAL_BASE_FEE, PROBABILITY_ONE / 4));
    graph.insert_edge(UserGraphEdge::new(0, 69, 400 * INITIAL_BASE_FEE, PROBABILITY_ONE / 4));
    let plan = StrategyPlan { minimum_bound: 1, ..nobody_switches() };
    let mut environment = Environment::new();
    environment.setup(graph, plan);

    let mut created_at = None;
    let mut applied_at = None;
    for slot in 0..3000u64 {
        environment.process();
        for transaction in environment.blockchain.shards[0].blocks[slot as usize]
            .executed_transactions
            .iter()
        {
            if transaction.functions[0].ftype == FunctionType::CreateCrossTransferAll {
                assert!(slot > INITIAL_SETUP_SLOTS);
                assert!(created_at.is_none());
                created_at = Some(slot);
            }
        }
        for transaction in environment.blockchain.shards[5].blocks[slot as usize]
            .executed_transactions
            .iter()
        {
            if transaction.functions[0].ftype == FunctionType::ApplyCrossTransferAll {
                assert!(created_at.is_some());
                assert_eq!(transaction.functions[0].calldata, "0");
                applied_at = Some(slot);
            }
        }
        if let Some(applied) = applied_at {
            if slot > applied + 1 {
                break;
            }
        }
    }
    assert!(created_at.is_some());
    assert!(applied_at.unwrap() > created_at.unwrap());
    for (id, shard) in environment.blockchain.shards.iter().enumerate() {
        assert_eq!(shard.get_account(0).is_some(), id == 5);
        assert!(shard.get_moving_account(0).is_none());
    }
    assert_eq!(environment.blockchain.addr_to_shard_id[&0], 5);
    let account = environment.blockchain.shards[5].get_account(0).unwrap();
    assert_eq!(account.shard_id, 5);
    assert_eq!(account.balance, u128::MAX / 10);
}

#[test]
fn same_inputs_give_the_same_run() {
    let mut runs = Vec::new();
    for _ in 0..2 {
        let mut environment = Environment::new();
        let graph = UserGraph::new_random(300, true, true, &mut environment.rng);
        let plan = StrategyPlan {
            minimum_bound: 50,
            weighted_random_bound: 100,
            decreasing_minimum_bound: 150,
            popular_user_exists: true,
            popular_user_is_switcher: true,
        };
        environment.setup(graph, plan);
        for _ in 0..60 {
            environment.process();
        }
        let fees: Vec<Vec<u128>> = environment
            .blockchain
            .shards
            .iter()
            .map(|shard| shard.states.iter().map(|state| state.base_fee).collect())
            .collect();
        let hashes: Vec<Vec<u64>> = environment
            .blockchain
            .shards
            .iter()
            .map(|shard| {
                shard
                    .blocks
                    .iter()
                    .flat_map(|block| block.executed_transactions.iter().map(|t| t.hash))
                    .collect()
            })
            .collect();
        runs.push((
            fees,
            hashes,
            environment.user_num_mem.clone(),
            environment.mempool_tx_mem.clone(),
        ));
    }
    assert!(runs[0] == runs[1]);
    // Something did happen.
    assert!(runs[0].1.iter().any(|hashes| !hashes.is_empty()));
}

#[test]
fn invariants_hold_after_every_slot() {
    let mut environment = Environment::new();
    let graph = UserGraph::new_random(500, true, false, &mut environment.rng);
    let plan = StrategyPlan {
        minimum_bound: 100,
        weighted_random_bound: 200,
        decreasing_minimum_bound: 300,
        popular_user_exists: true,
        popular_user_is_switcher: false,
    };
    environment.setup(graph, plan);
    let mut nonces = vec![std::collections::HashMap::new(); SHARD_NUM];
    for slot in 0..40usize {
        environment.process();
        for (id, shard) in environment.blockchain.shards.iter().enumerate() {
            assert_eq!(shard.states.len(), shard.blocks.len() + 1);
            let block = shard.blocks.last().unwrap();
            assert!(block.gas_used <= 20_000_000);
            assert_eq!(block.number, slot as u64);
            let base_fee = shard.states[slot].base_fee;
            assert_eq!(
                shard.states[slot + 1].base_fee,
                shargrila::ShardState::compute_updated_gasprice(base_fee, block.gas_used)
            );
            let priorities: Vec<u128> = block
                .executed_transactions
                .iter()
                .map(|t| t.effective_priority(base_fee))
                .collect();
            assert!(priorities.windows(2).all(|pair| pair[0] >= pair[1]));
            assert!(block.executed_transactions.iter().all(|t| t.fee_cap > base_fee));
            for (addr, nonce) in shard.account_nonce.iter() {
                let before = nonces[id].insert(*addr, *nonce).unwrap_or(0);
                assert!(before <= *nonce);
            }
            assert!(shard.mempool.len() <= 10_000);
        }
        for user in environment.users.iter() {
            assert!(user
                .unconfirmed_transactions_in_shard
                .iter()
                .all(|list| list.len() <= 1));
            for (shard_id, nonce) in user.nonce_in_shard.iter().enumerate() {
                assert!(*nonce <= slot + 1);
                assert!(user.unsent_transactions_in_shard[shard_id]
                    .iter()
                    .all(|queued| queued.0.shard_id == shard_id));
            }
        }
        for addr in 0..500usize {
            let holders = environment
                .blockchain
                .shards
                .iter()
                .filter(|shard| {
                    shard.get_account(addr).is_some() || shard.get_moving_account(addr).is_some()
                })
                .count();
            assert!(holders >= 1);
        }
    }
}

#[test]
fn edges_are_taken_in_a_shuffled_order() {
    // All targets of user 0 live on its shard; in each slot the first edge
    // of the shuffled order is the one that is used.
    let mut graph = UserGraph::with_nodes(64 * 5 + 1);
    for k in 1..=5usize {
        graph.insert_edge(UserGraphEdge::new(0, 64 * k, 2 * INITIAL_BASE_FEE, PROBABILITY_ONE));
    }
    let mut environment = Environment::new();
    environment.setup(graph, nobody_switches());
    let mut targets = std::collections::HashSet::new();
    for slot in 0..10usize {
        environment.process();
        let block = &environment.blockchain.shards[0].blocks[slot];
        assert_eq!(block.executed_transactions.len(), 1);
        let to = block.executed_transactions[0].to;
        assert!(to % 64 == 0 && to >= 64 && to <= 320);
        targets.insert(to);
    }
    assert!(targets.len() > 1);
}

#[test]
fn weighted_random_user_draws_only_when_a_shard_saves() {
    // Nothing is to be saved: the decisions leave the generator untouched,
    // so that two environments stay in step whatever the strategies are.
    let mut runs = Vec::new();
    for bound in [0usize, 3] {
        let mut environment = Environment::new();
        let plan = StrategyPlan { weighted_random_bound: bound, ..nobody_switches() };
        environment.setup(graph_with_edge(65, 0, 64, 2 * INITIAL_BASE_FEE, PROBABILITY_ONE / 2), plan);
        for _ in 0..30 {
            environment.process();
        }
        let hashes: Vec<usize> = environment.blockchain.shards[0]
            .blocks
            .iter()
            .map(|block| block.executed_transactions.len())
            .collect();
        runs.push(hashes);
    }
    assert_eq!(runs[0], runs[1]);
    assert!(runs[0].iter().any(|count| *count == 1));
    assert!(runs[0].iter().any(|count| *count == 0));
}

#[test]
fn accounts_of_users_that_stay_have_one_holder() {
    let mut environment = Environment::new();
    let graph = UserGraph::new_random(300, false, false, &mut environment.rng);
    environment.setup(graph, nobody_switches());
    for _ in 0..20 {
        environment.process();
        for addr in 0..300usize {
            let holders: Vec<usize> = environment
                .blockchain
                .shards
                .iter()
                .filter(|shard| {
                    shard.get_account(addr).is_some() || shard.get_moving_account(addr).is_some()
                })
                .map(|shard| shard.id)
                .collect();
            assert_eq!(holders, vec![addr % SHARD_NUM]);
        }
    }
}
