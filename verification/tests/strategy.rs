use shargrila::decimal::decimal_string;
use shargrila::parameters::{INITIAL_BASE_FEE, SHARD_NUM};
use shargrila::probability::{draw_exceeds, normalize, share_of, MAX_PROBABILITY, PROBABILITY_ONE};
use shargrila::ordering::sort_by_first;
use shargrila::strategy::{
    choose_shard, decide, fee_on_edge, fee_on_shard, fee_reductions, fraction_exceeds,
    sum_reductions,
};
use shargrila::{
    Environment, Function, FunctionType, StrategyPlan, StrategyType, Transaction, UserGraph,
    UserGraphEdge,
};

fn environment_with(graph: UserGraph) -> Environment {
    let plan = StrategyPlan {
        minimum_bound: 0,
        weighted_random_bound: 0,
        decreasing_minimum_bound: 0,
        popular_user_exists: false,
        popular_user_is_switcher: false,
    };
    let mut environment = Environment::new();
    environment.setup(graph, plan);
    environment
}

#[test]
fn share_is_rounded_down() {
    assert_eq!(share_of(1_000, PROBABILITY_ONE), 1_000);
    assert_eq!(share_of(1_000, PROBABILITY_ONE / 2), 500);
    assert_eq!(share_of(3, PROBABILITY_ONE / 2), 1);
    assert_eq!(share_of(1_000, 0), 0);
    assert_eq!(share_of(7, 3 * PROBABILITY_ONE), 21);
}

#[test]
fn draw_is_compared_as_a_fraction() {
    assert!(!draw_exceeds(0, 0));
    assert!(draw_exceeds(1, 0));
    assert!(!draw_exceeds(u32::MAX, PROBABILITY_ONE));
    assert!(draw_exceeds(u32::MAX, PROBABILITY_ONE - 1));
    assert!(!draw_exceeds(u32::MAX / 2, PROBABILITY_ONE / 2));
    assert!(draw_exceeds(u32::MAX / 2 + 1, PROBABILITY_ONE / 2));
    assert!(!draw_exceeds(u32::MAX, MAX_PROBABILITY));
}

#[test]
fn weight_becomes_a_share_of_all_transfers() {
    assert_eq!(normalize(0, 0), 0);
    assert_eq!(normalize(0, 10), 0);
    assert_eq!(normalize(10, 10), MAX_PROBABILITY);
    assert_eq!(normalize(1, 30_258), PROBABILITY_ONE);
    assert_eq!(normalize(1, 3), 30_258 * PROBABILITY_ONE / 3);
}

#[test]
fn fractions_are_compared_without_overflow() {
    assert!(fraction_exceeds(1, 2, u32::MAX / 2));
    assert!(!fraction_exceeds(1, 2, u32::MAX / 2 + 1));
    assert!(!fraction_exceeds(5, 5, u32::MAX));
    assert!(fraction_exceeds(5, 5, u32::MAX - 1));
    assert!(!fraction_exceeds(0, 5, 0));
    assert!(fraction_exceeds(1, u128::MAX, 0));
    assert!(!fraction_exceeds(1, u128::MAX, 1));
    assert!(fraction_exceeds(u128::MAX, u128::MAX, u32::MAX - 1));
    assert!(!fraction_exceeds(u128::MAX - 1, u128::MAX, u32::MAX));
    assert!(fraction_exceeds(u128::MAX / 2 + 1, u128::MAX, u32::MAX / 2));
}

#[test]
fn reductions_are_sorted_by_what_they_save() {
    let mut list = vec![(5, 0), (3, 1), (5, 2), (0, 3), (3, 4)];
    sort_by_first(&mut list);
    assert_eq!(list, vec![(0, 3), (3, 1), (3, 4), (5, 0), (5, 2)]);
    assert_eq!(sum_reductions(&list), 16);
}

#[test]
fn decision_for_another_shard_has_a_fee_cap() {
    assert_eq!(decide(3, (1_000_000, 3)), (3, None));
    assert_eq!(decide(3, (1_000_000, 4)), (4, Some(1_000_000 / 84_605)));
    assert_eq!(decide(3, (84_604, 4)), (4, Some(0)));
}

#[test]
fn numbers_are_written_in_decimal() {
    assert_eq!(decimal_string(0), "0");
    assert_eq!(decimal_string(7), "7");
    assert_eq!(decimal_string(10), "10");
    assert_eq!(decimal_string(63), "63");
    assert_eq!(decimal_string(1_234_567_890), "1234567890");
    assert_eq!(decimal_string(usize::MAX), usize::MAX.to_string());
}

#[test]
fn expected_fee_counts_the_legs_of_each_transfer() {
    // User 0 lives on shard 0; its target 5 lives on shard 5.
    let mut graph = UserGraph::with_nodes(6);
    let edge = UserGraphEdge::new(0, 5, 3_000, PROBABILITY_ONE / 2);
    graph.insert_edge(edge);
    let environment = environment_with(graph);
    let chain = &environment.blockchain;
    let graph = &environment.user_graph;

    // Before the chain has settled the price is the fee cap of the edge.
    assert_eq!(fee_on_edge(chain, &edge, 5), 21_000 * 3_000 / 2);
    assert_eq!(fee_on_edge(chain, &edge, 0), (52_820 + 31_785) * 3_000 / 2);
    assert_eq!(fee_on_edge(chain, &edge, 7), (52_820 + 31_785) * 3_000 / 2);

    let at_home = (52_820 + 31_785) * 3_000 / 2 * 100;
    let there = 21_000 * 3_000 / 2 * 100 + (31_785 + 52_820) * INITIAL_BASE_FEE;
    assert_eq!(fee_on_shard(chain, graph, 0, 0, 0), at_home);
    assert_eq!(fee_on_shard(chain, graph, 0, 0, 5), there);
    // Moving costs more than it saves: only home is no dearer than home.
    assert_eq!(fee_reductions(chain, graph, 0, 0), vec![(0, 0)]);
    for strategy in [
        StrategyType::NonSwitcher,
        StrategyType::WeightedRandom,
        StrategyType::Minimum,
        StrategyType::DecreasingMinimum,
    ] {
        assert_eq!(choose_shard(chain, graph, 0, strategy, 12_345), (0, None));
    }
}

#[test]
fn strategies_pick_among_the_cheaper_shards() {
    // User 0 lives on shard 0; its target 5 lives on shard 5.
    let mut graph = UserGraph::with_nodes(6);
    graph.insert_edge(UserGraphEdge::new(0, 5, 5, MAX_PROBABILITY));
    let mut environment = environment_with(graph);
    for _ in 0..12 {
        environment.process();
    }
    let chain = &environment.blockchain;
    let graph = &environment.user_graph;
    let base_fee = chain.shards[0].get_base_fee();
    for shard in chain.shards.iter() {
        // No transaction clears a fee cap this low: all blocks are empty.
        assert_eq!(shard.get_base_fee(), base_fee);
    }
    let at_home = 30_258 * (52_820 + 31_785) * base_fee * 100;
    let at_target = 30_258 * 21_000 * base_fee * 100 + (31_785 + 52_820) * base_fee;
    assert_eq!(fee_on_shard(chain, graph, 0, 0, 0), at_home);
    assert_eq!(fee_on_shard(chain, graph, 0, 0, 5), at_target);
    let reductions = fee_reductions(chain, graph, 0, 0);
    assert_eq!(reductions, vec![(0, 0), (at_home - at_target, 5)]);

    let fee_cap = (at_home - at_target) / 84_605;
    assert_eq!(choose_shard(chain, graph, 0, StrategyType::NonSwitcher, 0), (0, None));
    assert_eq!(choose_shard(chain, graph, 0, StrategyType::Minimum, 0), (5, Some(fee_cap)));
    // Home saves nothing, so every draw but the highest falls to shard 5.
    assert_eq!(choose_shard(chain, graph, 0, StrategyType::WeightedRandom, 0), (5, Some(fee_cap)));
    assert_eq!(
        choose_shard(chain, graph, 0, StrategyType::WeightedRandom, u32::MAX - 1),
        (5, Some(fee_cap))
    );
    assert_eq!(choose_shard(chain, graph, 0, StrategyType::WeightedRandom, u32::MAX), (0, None));
    // The base fee of shard 5 is falling.
    assert_eq!(
        choose_shard(chain, graph, 0, StrategyType::DecreasingMinimum, 0),
        (5, Some(fee_cap))
    );
    let user = &environment.users[0];
    assert_eq!(user.pick_low_fee_shard_id_and_movement_fee_cap(&environment, 0), (0, None));
    assert!(!user.user_type.is_switcher());
    assert!(StrategyType::Minimum.is_switcher());
    assert_eq!(environment.get_shard_id_from_addr(5), 5 % SHARD_NUM);
    assert_eq!(environment.determine_fee_cap(0, 5), 5);
}

#[test]
fn decreasing_minimum_avoids_a_shard_whose_fee_rises() {
    let mut graph = UserGraph::with_nodes(6);
    graph.insert_edge(UserGraphEdge::new(0, 5, 5, MAX_PROBABILITY));
    let mut environment = environment_with(graph);
    for _ in 0..12 {
        environment.process();
    }
    // A block above the gas target makes the base fee of shard 5 rise.
    for nonce in 0..200usize {
        let transaction = Transaction::new(
            5,
            5,
            5,
            vec![Function {
                source: 5,
                target: 5,
                ftype: FunctionType::ApplyCrossTransfer,
                calldata: String::new(),
            }],
            1,
            2 * INITIAL_BASE_FEE,
            nonce,
        );
        environment.blockchain.shards[5].push_transaction(transaction, None);
    }
    environment.process();
    let chain = &environment.blockchain;
    let graph = &environment.user_graph;
    assert_eq!(chain.shards[5].blocks[12].gas_used, 200 * 52_820);
    assert!(chain.shards[5].states[12].base_fee < chain.shards[5].states[13].base_fee);
    assert!(chain.shards[0].states[12].base_fee > chain.shards[0].states[13].base_fee);
    assert_eq!(choose_shard(chain, graph, 0, StrategyType::DecreasingMinimum, 0), (0, None));
    match choose_shard(chain, graph, 0, StrategyType::Minimum, 0) {
        (5, Some(_)) => {}
        other => panic!("the cheapest shard is 5, not {:?}", other),
    }
}
