use shargrila::history::{count_blocks, read_history, tally_transfers};
use shargrila::parameters::{MAX_FEE_CAP, MAX_TARGET_USER_NUM};
use shargrila::probability::{MAX_PROBABILITY, PROBABILITY_ONE};
use shargrila::{Environment, HistoricTransfer, TransactionRecord, UserGraph, UserGraphEdge};

fn record(from: &str, to: &str, gas_price: u64, status: u64, block: u64) -> TransactionRecord {
    TransactionRecord {
        nonce: 0,
        transaction_index: 0,
        from_address: from.to_string(),
        to_address: to.to_string(),
        value: 0,
        gas: 21_000,
        gas_price,
        receipt_cumulative_gas_used: 0,
        receipt_gas_used: 21_000,
        receipt_contract_address: String::new(),
        receipt_root: String::new(),
        receipt_status: status,
        block_timestamp: String::new(),
        block_number: block,
    }
}

#[test]
fn empty_graph_has_neither_nodes_nor_edges() {
    let graph = UserGraph::new();
    assert!(graph.nodes.is_empty());
    assert!(graph.edges.is_empty());
    let graph = UserGraph::with_nodes(3);
    assert_eq!(graph.nodes.len(), 3);
    assert_eq!(graph.edges.len(), 3);
    assert_eq!(graph.nodes[2].account_addr, 2);
    assert!(graph.edges.iter().all(|row| row.is_empty()));
}

#[test]
fn edge_takes_the_place_of_an_edge_between_the_same_nodes() {
    let mut graph = UserGraph::with_nodes(4);
    graph.insert_edge(UserGraphEdge::new(0, 1, 10, 1));
    graph.insert_edge(UserGraphEdge::new(0, 2, 20, 2));
    graph.insert_edge(UserGraphEdge::new(0, 1, 30, 3));
    graph.insert_edge(UserGraphEdge::new(3, 3, 40, 4));
    assert_eq!(graph.edges[0].len(), 2);
    assert_eq!(graph.get_edge(0, 1).fee_cap, 30);
    assert_eq!(graph.get_edge(0, 1).transfer_probability_in_slot, 3);
    assert_eq!(graph.get_edge(0, 2).fee_cap, 20);
    assert_eq!(graph.edges[0][0].to, 1);
    assert_eq!(graph.edges[0][1].to, 2);
    // Every edge that was laid is counted, also the one that was replaced.
    assert_eq!(graph.nodes[0].out_degree, 3);
    assert_eq!(graph.nodes[1].in_degree, 2);
    assert_eq!(graph.nodes[2].in_degree, 1);
    assert_eq!((graph.nodes[3].in_degree, graph.nodes[3].out_degree), (1, 1));

    graph.normalize_all(6);
    assert_eq!(graph.get_edge(0, 1).transfer_probability_in_slot, 30_258 * PROBABILITY_ONE / 2);
    assert_eq!(graph.get_edge(0, 2).transfer_probability_in_slot, 30_258 * PROBABILITY_ONE / 3);
    assert_eq!(graph.get_edge(3, 3).transfer_probability_in_slot, 30_258 * PROBABILITY_ONE * 4 / 6);
    assert_eq!(graph.get_edge(0, 1).fee_cap, 30);
}

#[test]
fn draws_are_turned_into_the_parts_of_an_edge() {
    assert_eq!(UserGraph::target_count_for(0, 15), 0);
    assert_eq!(UserGraph::target_count_for(15, 15), 15);
    assert_eq!(UserGraph::target_count_for(16, 15), 0);
    assert_eq!(UserGraph::target_count_for(35, 3), 3);
    assert!(UserGraph::is_drawn_to_popular_user(0));
    assert!(UserGraph::is_drawn_to_popular_user(429_496_728));
    assert!(!UserGraph::is_drawn_to_popular_user(429_496_729));
    assert_eq!(UserGraph::target_for(1_003, 100), 3);
    assert_eq!(UserGraph::weight_for(12_345), 45);
    assert_eq!(UserGraph::fee_cap_for(u64::MAX), u64::MAX as u128 % MAX_FEE_CAP);
}

#[test]
fn random_graph_stays_within_its_bounds() {
    let mut environment = Environment::new();
    let graph = UserGraph::new_random(200, true, true, &mut environment.rng);
    assert_eq!(graph.nodes.len(), 200);
    assert_eq!(graph.edges.len(), 200);
    let mut edges = 0;
    for (from, row) in graph.edges.iter().enumerate() {
        assert!(row.len() <= MAX_TARGET_USER_NUM);
        for (k, edge) in row.iter().enumerate() {
            assert_eq!(edge.from, from);
            assert!(edge.to < 200);
            assert!(edge.to != from);
            assert!(edge.fee_cap < MAX_FEE_CAP);
            assert!(edge.transfer_probability_in_slot <= MAX_PROBABILITY);
            assert!(row[..k].iter().all(|other| other.to != edge.to));
            edges += 1;
        }
    }
    assert!(edges > 200);
    // The popular user is the target of more users than any other.
    let most = graph.nodes.iter().map(|node| node.in_degree).max().unwrap();
    assert_eq!(graph.nodes[0].in_degree, most);
    // The same seed gives the same graph.
    let mut second = Environment::new();
    let again = UserGraph::new_random(200, true, true, &mut second.rng);
    for (row, other) in graph.edges.iter().zip(again.edges.iter()) {
        assert_eq!(row.len(), other.len());
        for (edge, twin) in row.iter().zip(other.iter()) {
            assert_eq!(
                (edge.to, edge.fee_cap, edge.transfer_probability_in_slot),
                (twin.to, twin.fee_cap, twin.transfer_probability_in_slot)
            );
        }
    }
}

#[test]
fn random_graph_without_users_is_empty() {
    let mut environment = Environment::new();
    let graph = UserGraph::new_random(0, false, false, &mut environment.rng);
    assert!(graph.nodes.is_empty());
    let graph = UserGraph::new_random(1, true, true, &mut environment.rng);
    assert_eq!(graph.nodes.len(), 1);
    assert!(graph.edges[0].is_empty());
}

#[test]
fn history_is_taken_in_until_the_users_are_found() {
    let records = vec![
        record("a", "b", 10, 1, 100),
        record("x", "y", 10, 0, 100),
        record("b", "a", 20, 1, 100),
        record("a", "b", 30, 1, 101),
        record("c", "c", 40, 1, 102),
        record("d", "e", 50, 1, 103),
        record("a", "b", 60, 1, 104),
    ];
    let (addresses, transfers) = read_history(3, &records);
    assert_eq!(addresses, vec!["a", "b", "c"]);
    let seen: Vec<(usize, usize, u64, u64)> = transfers
        .iter()
        .map(|t| (t.from, t.to, t.gas_price, t.block_number))
        .collect();
    assert_eq!(
        seen,
        vec![(0, 1, 10, 100), (1, 0, 20, 100), (0, 1, 30, 101), (2, 2, 40, 102)]
    );
    assert_eq!(count_blocks(&transfers), 3);

    // Both addresses of a row become known, even beyond the number asked for.
    let (addresses, transfers) = read_history(1, &records);
    assert_eq!(addresses, vec!["a", "b"]);
    assert_eq!(transfers.len(), 1);
    let (addresses, transfers) = read_history(0, &records);
    assert!(addresses.is_empty());
    assert!(transfers.is_empty());
}

#[test]
fn transfers_are_tallied_by_their_ends() {
    let transfers = vec![
        HistoricTransfer { from: 0, to: 1, gas_price: 10, block_number: 1 },
        HistoricTransfer { from: 0, to: 2, gas_price: 5, block_number: 1 },
        HistoricTransfer { from: 0, to: 1, gas_price: 31, block_number: 2 },
        HistoricTransfer { from: 2, to: 0, gas_price: u64::MAX, block_number: 2 },
        HistoricTransfer { from: 2, to: 0, gas_price: u64::MAX, block_number: 3 },
    ];
    let rows = tally_transfers(3, &transfers);
    let seen: Vec<Vec<(usize, u64, u128)>> = rows
        .iter()
        .map(|row| row.iter().map(|t| (t.to, t.cnt, t.gas_price)).collect())
        .collect();
    assert_eq!(
        seen,
        vec![vec![(1, 2, 41), (2, 1, 5)], vec![], vec![(0, 2, 2 * u64::MAX as u128)]]
    );

    let graph = UserGraph::from_transfers(3, &transfers).unwrap();
    assert_eq!(graph.nodes.len(), 3);
    assert_eq!(graph.get_edge(0, 1).fee_cap, 20);
    assert_eq!(graph.get_edge(0, 1).transfer_probability_in_slot, 30_258 * PROBABILITY_ONE * 2 / 5);
    assert_eq!(graph.get_edge(0, 2).fee_cap, 5);
    assert_eq!(graph.get_edge(0, 2).transfer_probability_in_slot, 30_258 * PROBABILITY_ONE / 5);
    assert_eq!(graph.get_edge(2, 0).fee_cap, u64::MAX as u128);
    assert_eq!((graph.nodes[0].out_degree, graph.nodes[0].in_degree), (2, 1));
    assert_eq!((graph.nodes[1].out_degree, graph.nodes[1].in_degree), (0, 1));
    assert_eq!((graph.nodes[2].out_degree, graph.nodes[2].in_degree), (1, 1));
}

#[test]
fn graph_is_made_from_history() {
    let records = vec![
        record("0xaa", "0xbb", 10, 1, 7),
        record("0xbb", "0xaa", 20, 1, 7),
        record("0xaa", "0xbb", 30, 1, 8),
        record("0xcc", "0xaa", 5, 0, 9),
    ];
    let history = UserGraph::new_from_eth1_data(10, &records).unwrap();
    assert_eq!(history.addresses, vec!["0xaa", "0xbb"]);
    assert_eq!(history.number_of_transactions, 3);
    assert_eq!(history.number_of_blocks, 2);
    assert_eq!(history.user_graph.nodes.len(), 2);
    assert_eq!(history.user_graph.get_edge(0, 1).fee_cap, 20);
    assert_eq!(history.user_graph.get_edge(1, 0).fee_cap, 20);
    assert_eq!(
        history.user_graph.get_edge(1, 0).transfer_probability_in_slot,
        30_258 * PROBABILITY_ONE / 3
    );
    let empty = UserGraph::new_from_eth1_data(10, &Vec::new()).unwrap();
    assert!(empty.user_graph.nodes.is_empty());
    assert_eq!(empty.number_of_blocks, 0);
}

#[test]
fn too_many_targets_make_no_graph() {
    let transfers: Vec<HistoricTransfer> = (0..65_537usize)
        .map(|to| HistoricTransfer { from: 0, to, gas_price: 1, block_number: 0 })
        .collect();
    assert!(UserGraph::from_transfers(65_537, &transfers).is_none());
    let fitting = UserGraph::from_transfers(65_537, &transfers[..65_536].to_vec()).unwrap();
    assert_eq!(fitting.edges[0].len(), 65_536);
}

#[test]
fn nodes_are_ranked_by_degree() {
    let mut graph = UserGraph::with_nodes(4);
    graph.insert_edge(UserGraphEdge::new(0, 1, 1, 1));
    graph.insert_edge(UserGraphEdge::new(0, 2, 1, 1));
    graph.insert_edge(UserGraphEdge::new(3, 2, 1, 1));
    graph.insert_edge(UserGraphEdge::new(1, 2, 1, 1));
    assert_eq!(graph.degree_ranking(true), vec![(2, 0), (1, 3), (1, 1), (0, 2)]);
    assert_eq!(graph.degree_ranking(false), vec![(3, 2), (1, 1), (0, 3), (0, 0)]);
    assert!(UserGraph::new().degree_ranking(true).is_empty());
}
