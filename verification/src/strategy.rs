use crate::custom_types::{Address, GasPrice, Wei};
use crate::ordering::{
    first_rank, lemma_stable_sort_keeps, lemma_stable_sort_len, sort_by_first, stable_sort,
};
use crate::parameters::{
    AVERAGE_SHARD_SWITCHING_INTERVAL, GAS_APPLY_CROSS_TRANSFER, GAS_APPLY_CROSS_TRANSFER_ALL,
    GAS_CREATE_CROSS_TRANSFER, GAS_CREATE_CROSS_TRANSFER_ALL, GAS_TRANSFER, INITIAL_SETUP_SLOTS,
    MAX_GASPRICE, SHARD_NUM,
};
use crate::probability::{expected_share, share_of, MAX_PROBABILITY, PROBABILITY_ONE};
use crate::sharded_blockchain::{ShardedBlockchain, ShardedBlockchainView};
use crate::user::StrategyType;
use crate::user_graph::{UserGraph, UserGraphEdge, UserGraphView, EDGE_LIMIT, FEE_CAP_LIMIT};
use vstd::prelude::*;

verus! {

/// The most that one transfer can cost: both legs of a cross-shard
/// transfer at the highest price.
pub const COST_LIMIT: Wei = 1_560_686_782_356_196_614_387_075;

/// The most that one edge can add to the fee that a user expects.
pub const EDGE_FEE_LIMIT: Wei = 47_223_260_660_533_797_158_124_115_350;

/// The most that a user can expect to pay on a shard.
pub const EXPECTED_FEE_LIMIT: Wei = 309_482_361_064_874_294_441_650_522_357_760_000;

/// A shard on which the user would pay `0` less than at home, and the
/// shard `1`.
pub type Reduction = (Wei, usize);

/// What a user decides: the shard to live on, and the fee cap for the
/// move where that is another shard.
pub type Decision = (usize, Option<GasPrice>);

/// Whether every user of the first `user_num` addresses is placed: the
/// index names a shard for it, and that shard holds its account.
pub open spec fn users_are_placed(chain: ShardedBlockchainView, user_num: int) -> bool {
    forall|a: Address|
        a < user_num ==> #[trigger] chain.addr_to_shard_id.contains_key(a)
            && chain.shards[chain.addr_to_shard_id[a] as int].holds(a)
}

/// The shard with which the account of `addr` is stamped.
pub open spec fn home_shard(chain: ShardedBlockchainView, addr: Address) -> int {
    chain.get_account(addr).1->Some_0.shard_id as int
}

/// The gas of a move to another shard, both halves.
pub open spec fn movement_gas() -> int {
    GAS_APPLY_CROSS_TRANSFER_ALL + GAS_CREATE_CROSS_TRANSFER_ALL
}

/// What the transfers along `edge` are expected to cost the user per
/// slot, if the user lives on `candidate`. Until the chain has settled the
/// price of gas is taken to be the fee cap of the edge, afterwards the
/// base fee of the shards. A transfer inside the shard costs one
/// transfer; one to another shard costs both of its legs.
pub open spec fn edge_fee(chain: ShardedBlockchainView, edge: UserGraphEdge, candidate: int)
    -> int {
    match chain.get_account(edge.to).1 {
        None => 0,
        Some(target) => {
            let shard_t = target.shard_id as int;
            let price_f = if chain.slot < INITIAL_SETUP_SLOTS {
                edge.fee_cap
            } else {
                chain.shards[candidate].base_fee()
            };
            let price_t = if chain.slot < INITIAL_SETUP_SLOTS {
                edge.fee_cap
            } else {
                chain.shards[shard_t].base_fee()
            };
            let cost = if candidate == shard_t {
                GAS_TRANSFER * price_f
            } else {
                GAS_APPLY_CROSS_TRANSFER * price_f + GAS_CREATE_CROSS_TRANSFER * price_t
            };
            expected_share(cost, edge.transfer_probability_in_slot)
        },
    }
}

/// What the transfers along the edges of `row` are expected to cost per
/// slot, together.
pub open spec fn row_fee(chain: ShardedBlockchainView, row: Seq<UserGraphEdge>, candidate: int)
    -> int
    decreases row.len(),
{
    if row.len() == 0 {
        0
    } else {
        row_fee(chain, row.drop_last(), candidate) + edge_fee(chain, row.last(), candidate)
    }
}

/// What moving from `home` to `candidate` costs at the base fees of the
/// two shards.
pub open spec fn movement_fee(chain: ShardedBlockchainView, home: int, candidate: int) -> int {
    if home != candidate {
        GAS_CREATE_CROSS_TRANSFER_ALL * chain.shards[home].base_fee()
            + GAS_APPLY_CROSS_TRANSFER_ALL * chain.shards[candidate].base_fee()
    } else {
        0
    }
}

/// What the user `addr` expects to pay if it lives on `candidate`: its
/// transfers over the time that a user stays on a shard, and the move
/// there.
pub open spec fn expected_fee(
    chain: ShardedBlockchainView,
    graph: UserGraphView,
    addr: Address,
    candidate: int,
) -> int {
    row_fee(chain, graph.edges[addr as int], candidate) * AVERAGE_SHARD_SWITCHING_INTERVAL
        + movement_fee(chain, home_shard(chain, addr), candidate)
}

/// The shards below `upto` on which the user `addr` expects to pay no
/// more than at home, each with what it saves there.
pub open spec fn reductions(
    chain: ShardedBlockchainView,
    graph: UserGraphView,
    addr: Address,
    upto: int,
) -> Seq<Reduction>
    decreases upto,
{
    if upto <= 0 {
        Seq::empty()
    } else {
        let before = reductions(chain, graph, addr, upto - 1);
        let at_home = expected_fee(chain, graph, addr, home_shard(chain, addr));
        let there = expected_fee(chain, graph, addr, upto - 1);
        if at_home < there {
            before
        } else {
            before.push(((at_home - there) as Wei, (upto - 1) as usize))
        }
    }
}

/// The rank by which reductions are ordered: what is saved.
pub open spec fn reduction_rank() -> spec_fn(Reduction) -> int {
    first_rank()
}

/// The shards on which the user `addr` expects to pay no more than at
/// home, the least saving first; among equal savings the lower shard
/// first.
pub open spec fn sorted_reductions(
    chain: ShardedBlockchainView,
    graph: UserGraphView,
    addr: Address,
) -> Seq<Reduction> {
    stable_sort(reductions(chain, graph, addr, SHARD_NUM as int), reduction_rank())
}

/// What is saved on all the shards of `list` together.
pub open spec fn total_reduction(list: Seq<Reduction>) -> int
    decreases list.len(),
{
    if list.len() == 0 {
        0
    } else {
        total_reduction(list.drop_last()) + list.last().0
    }
}

/// The decision for the shard of `choice`: to stay, where that is home;
/// else to move, with what is saved per gas of the move as the fee cap.
pub open spec fn decision_for(home: int, choice: Reduction) -> Decision {
    if choice.1 == home {
        (choice.1, None)
    } else {
        (choice.1, Some((choice.0 as int / movement_gas()) as GasPrice))
    }
}

/// The shard that the number `draw` picks from `list`, each shard
/// weighted with what it saves: the first at which the savings so far,
/// as a fraction of `total`, are above the draw as a fraction of the
/// 32-bit range. `so_far` is what the shards before `list` save.
pub open spec fn weighted_choice(list: Seq<Reduction>, total: int, draw: u32, so_far: int)
    -> Option<Reduction>
    decreases list.len(),
{
    if list.len() == 0 {
        None
    } else if (so_far + list.first().0) * u32::MAX > draw * total {
        Some(list.first())
    } else {
        weighted_choice(list.drop_first(), total, draw, so_far + list.first().0)
    }
}

/// Whether the base fee of `shard_id` has risen in the last slot.
pub open spec fn fee_is_rising(chain: ShardedBlockchainView, shard_id: int) -> bool {
    let states = chain.shards[shard_id].states;
    states[states.len() - 2].base_fee < states[states.len() - 1].base_fee
}

/// The decision of a user that takes the highest saving on a shard whose
/// base fee is not rising: `list` is gone through from its end. The user
/// stays where home comes first, or a shard has no history yet, or no
/// shard is left.
pub open spec fn decreasing_choice(chain: ShardedBlockchainView, list: Seq<Reduction>, home: int)
    -> Decision
    decreases list.len(),
{
    if list.len() == 0 {
        (home as usize, None)
    } else if list.last().1 == home {
        (home as usize, None)
    } else if chain.shards[list.last().1 as int].states.len() < 2 {
        (home as usize, None)
    } else if fee_is_rising(chain, list.last().1 as int) {
        decreasing_choice(chain, list.drop_last(), home)
    } else {
        decision_for(home, list.last())
    }
}

/// The decision of the user `addr` with the strategy `user_type`; `draw`
/// is the number that a user of weighted random strategy goes by.
pub open spec fn chosen_shard(
    chain: ShardedBlockchainView,
    graph: UserGraphView,
    addr: Address,
    user_type: StrategyType,
    draw: u32,
) -> Decision {
    let home = home_shard(chain, addr);
    let sorted = sorted_reductions(chain, graph, addr);
    let total = total_reduction(sorted);
    if total == 0 {
        (home as usize, None)
    } else {
        match user_type {
            StrategyType::NonSwitcher => (home as usize, None),
            StrategyType::WeightedRandom => match weighted_choice(sorted, total, draw, 0) {
                Some(choice) => decision_for(home, choice),
                None => (home as usize, None),
            },
            StrategyType::Minimum => decision_for(home, sorted.last()),
            StrategyType::DecreasingMinimum => decreasing_choice(chain, sorted, home),
        }
    }
}

/// A placed user has an account, stamped with the shard that the index
/// names.
pub proof fn lemma_placed_account(chain: ShardedBlockchainView, user_num: int, addr: Address)
    requires
        chain.wf(),
        users_are_placed(chain, user_num),
        addr < user_num,
    ensures
        chain.addr_to_shard_id.contains_key(addr),
        chain.get_account(addr).1 is Some,
        home_shard(chain, addr) == chain.addr_to_shard_id[addr],
        0 <= home_shard(chain, addr) < SHARD_NUM,
{
    assert(chain.addr_to_shard_id.contains_key(addr));
    let shard = chain.shards[chain.addr_to_shard_id[addr] as int];
    assert(shard.wf());
    assert(shard.holds(addr));
    if shard.accounts.contains_key(addr) {
    } else {
        assert(shard.moving_accounts.contains_key(addr));
    }
}

/// The transfers along one edge are expected to cost no more than
/// `EDGE_FEE_LIMIT`, and nothing on the way passes 128 bits.
pub proof fn lemma_edge_fee_bound(cost: int, p: int)
    requires
        0 <= cost <= COST_LIMIT,
        0 <= p <= MAX_PROBABILITY,
    ensures
        0 <= cost * p <= u128::MAX,
        0 <= cost * p / (PROBABILITY_ONE as int) <= EDGE_FEE_LIMIT,
{
    assert(0 <= cost * p <= 1_560_686_782_356_196_614_387_075 * 129_957_120_442_368)
        by (nonlinear_arith)
        requires
            0 <= cost <= 1_560_686_782_356_196_614_387_075,
            0 <= p <= 129_957_120_442_368,
    ;
    let most: int = 1_560_686_782_356_196_614_387_075int * 129_957_120_442_368int;
    vstd::arithmetic::div_mod::lemma_div_is_ordered(cost * p, most, 4_294_967_296);
    vstd::arithmetic::div_mod::lemma_div_is_ordered(0, cost * p, 4_294_967_296);
}

/// What the transfers along `edge` are expected to cost per slot, if the
/// user lives on `candidate`.
pub fn fee_on_edge(chain: &ShardedBlockchain, edge: &UserGraphEdge, candidate: usize) -> (fee: Wei)
    requires
        chain.wf(),
        candidate < SHARD_NUM,
        chain@.addr_to_shard_id.contains_key(edge.to),
        edge.fee_cap <= FEE_CAP_LIMIT,
        edge.transfer_probability_in_slot <= MAX_PROBABILITY,
    ensures
        fee == edge_fee(chain@, *edge, candidate as int),
        fee <= EDGE_FEE_LIMIT,
{
    let (_, account_t) = chain.get_account(edge.to);
    match account_t {
        None => 0,
        Some(account_t) => {
            let shard_id_t = account_t.shard_id;
            proof {
                let shard = chain@.shards[chain@.addr_to_shard_id[edge.to] as int];
                assert(shard.wf());
                assert(shard.accounts.contains_key(edge.to) || shard.moving_accounts.contains_key(
                    edge.to,
                ));
                assert(shard_id_t < SHARD_NUM);
                assert(chain@.shards[candidate as int].wf());
                assert(chain@.shards[shard_id_t as int].wf());
                assert(chain@.shards[candidate as int].states[chain@.shards[candidate as
                    int].states.len()
                    - 1].base_fee <= MAX_GASPRICE);
                assert(chain@.shards[shard_id_t as int].states[chain@.shards[shard_id_t as
                    int].states.len()
                    - 1].base_fee <= MAX_GASPRICE);
            }
            let gas_price_f;
            let gas_price_t;
            if chain.slot < INITIAL_SETUP_SLOTS {
                gas_price_f = edge.fee_cap;
                gas_price_t = edge.fee_cap;
            } else {
                gas_price_f = chain.shards[candidate].get_base_fee();
                gas_price_t = chain.shards[shard_id_t].get_base_fee();
            }
            let cost = if candidate == shard_id_t {
                GAS_TRANSFER * gas_price_f
            } else {
                GAS_APPLY_CROSS_TRANSFER * gas_price_f + GAS_CREATE_CROSS_TRANSFER * gas_price_t
            };
            proof {
                lemma_edge_fee_bound(cost as int, edge.transfer_probability_in_slot as int);
            }
            share_of(cost, edge.transfer_probability_in_slot)
        },
    }
}

/// What the user `addr`, at home on `home`, expects to pay if it lives on
/// `candidate`.
pub fn fee_on_shard(
    chain: &ShardedBlockchain,
    graph: &UserGraph,
    addr: Address,
    home: usize,
    candidate: usize,
) -> (fee: Wei)
    requires
        chain.wf(),
        graph.wf(),
        users_are_placed(chain@, graph@.nodes.len() as int),
        addr < graph@.nodes.len(),
        home == home_shard(chain@, addr),
        candidate < SHARD_NUM,
    ensures
        fee == expected_fee(chain@, graph@, addr, candidate as int),
        fee <= EXPECTED_FEE_LIMIT,
{
    proof {
        lemma_placed_account(chain@, graph@.nodes.len() as int, addr);
    }
    let row = &graph.edges[addr];
    let mut expected: Wei = 0;
    let mut k: usize = 0;
    proof {
        assert(row@ == graph@.edges[addr as int]);
        assert(row@.take(0) =~= Seq::empty());
    }
    while k < row.len()
        invariant
            k <= row.len(),
            row.len() <= EDGE_LIMIT,
            chain.wf(),
            graph.wf(),
            users_are_placed(chain@, graph@.nodes.len() as int),
            addr < graph@.nodes.len(),
            row@ == graph@.edges[addr as int],
            candidate < SHARD_NUM,
            expected == row_fee(chain@, row@.take(k as int), candidate as int),
            expected <= k * EDGE_FEE_LIMIT,
        decreases row.len() - k,
    {
        proof {
            assert(row@.take(k + 1).drop_last() =~= row@.take(k as int));
            assert(row@.take(k + 1).last() == row@[k as int]);
            let edge = graph@.edges[addr as int][k as int];
            assert(edge.to < graph@.nodes.len());
            assert(chain@.addr_to_shard_id.contains_key(edge.to));
            assert(k * EDGE_FEE_LIMIT + EDGE_FEE_LIMIT <= 65_536 * EDGE_FEE_LIMIT)
                by (nonlinear_arith)
                requires
                    k < 65_536,
            ;
        }
        let fee = fee_on_edge(chain, &row[k], candidate);
        expected = expected + fee;
        k = k + 1;
    }
    proof {
        assert(row@.take(k as int) =~= row@);
        assert(k * EDGE_FEE_LIMIT <= 65_536 * EDGE_FEE_LIMIT) by (nonlinear_arith)
            requires
                k <= 65_536,
        ;
    }
    expected = expected * (AVERAGE_SHARD_SWITCHING_INTERVAL as Wei);
    if home != candidate {
        proof {
            assert(chain@.shards[home as int].wf());
            assert(chain@.shards[candidate as int].wf());
            assert(chain@.shards[candidate as int].states[chain@.shards[candidate as
                int].states.len()
                - 1].base_fee <= MAX_GASPRICE);
            assert(chain@.shards[home as int].states[chain@.shards[home as int].states.len()
                - 1].base_fee <= MAX_GASPRICE);
        }
        let gas_price_f = chain.shards[home].get_base_fee();
        let gas_price_t = chain.shards[candidate].get_base_fee();
        expected = expected + (GAS_CREATE_CROSS_TRANSFER_ALL * gas_price_f
            + GAS_APPLY_CROSS_TRANSFER_ALL * gas_price_t);
    }
    expected
}

/// Whether `part`, as a fraction of `whole`, is above `draw` as a
/// fraction of the 32-bit range.
pub open spec fn fraction_is_above(part: int, whole: int, draw: u32) -> bool {
    part * u32::MAX > draw * whole
}

/// Whether `part`, as a fraction of `whole`, is above `draw` as a
/// fraction of the 32-bit range. No product on the way passes 128 bits.
pub fn fraction_exceeds(part: u128, whole: u128, draw: u32) -> (above: bool)
    ensures
        above == fraction_is_above(part as int, whole as int, draw),
{
    let range: u128 = u32::MAX as u128;
    let quotient: u128 = whole / range;
    let rest: u128 = whole % range;
    proof {
        assert(whole == quotient * range + rest) by (nonlinear_arith)
            requires
                quotient == whole / range,
                rest == whole % range,
                range > 0,
        ;
        assert(draw * quotient <= range * quotient) by (nonlinear_arith)
            requires
                draw <= range,
                quotient >= 0,
        ;
        assert(draw * rest <= range * range) by (nonlinear_arith)
            requires
                0 <= draw <= range,
                0 <= rest < range,
        ;
        assert(draw * whole == (draw * quotient) * range + draw * rest) by (nonlinear_arith)
            requires
                whole == quotient * range + rest,
        ;
    }
    let covered: u128 = (draw as u128) * quotient;
    let left: u128 = (draw as u128) * rest;
    if part < covered {
        proof {
            assert(part * range < covered * range) by (nonlinear_arith)
                requires
                    part < covered,
                    range > 0,
            ;
        }
        return false;
    }
    let excess: u128 = part - covered;
    proof {
        assert(part * range == excess * range + covered * range) by (nonlinear_arith)
            requires
                excess == part - covered,
        ;
    }
    if excess >= range {
        proof {
            assert(excess * range >= range * range) by (nonlinear_arith)
                requires
                    excess >= range,
                    range > 0,
            ;
            assert(draw * rest < range * range) by (nonlinear_arith)
                requires
                    0 <= draw <= range,
                    0 <= rest < range,
                    range > 0,
            ;
        }
        return true;
    }
    proof {
        assert(excess * range <= range * range) by (nonlinear_arith)
            requires
                0 <= excess < range,
        ;
    }
    excess * range > left
}

/// Whether every reduction of `list` is within the limit and names a
/// shard.
pub open spec fn reductions_are_bounded(list: Seq<Reduction>) -> bool {
    forall|k: int|
        0 <= k < list.len() ==> (#[trigger] list[k]).0 <= EXPECTED_FEE_LIMIT && list[k].1
            < SHARD_NUM
}

/// The shards on which the user `addr`, at home on `home`, expects to pay
/// no more than at home, each with what it saves there, in the order of
/// the shards.
pub fn fee_reductions(chain: &ShardedBlockchain, graph: &UserGraph, addr: Address, home: usize)
    -> (list:
    Vec<Reduction>)
    requires
        chain.wf(),
        graph.wf(),
        users_are_placed(chain@, graph@.nodes.len() as int),
        addr < graph@.nodes.len(),
        home == home_shard(chain@, addr),
    ensures
        list@ == reductions(chain@, graph@, addr, SHARD_NUM as int),
        list.len() <= SHARD_NUM,
        reductions_are_bounded(list@),
{
    proof {
        lemma_placed_account(chain@, graph@.nodes.len() as int, addr);
    }
    let at_home = fee_on_shard(chain, graph, addr, home, home);
    let mut list: Vec<Reduction> = Vec::new();
    let mut candidate: usize = 0;
    while candidate < SHARD_NUM
        invariant
            candidate <= SHARD_NUM,
            chain.wf(),
            graph.wf(),
            users_are_placed(chain@, graph@.nodes.len() as int),
            addr < graph@.nodes.len(),
            home == home_shard(chain@, addr),
            at_home == expected_fee(chain@, graph@, addr, home as int),
            at_home <= EXPECTED_FEE_LIMIT,
            list@ == reductions(chain@, graph@, addr, candidate as int),
            list.len() <= candidate,
            reductions_are_bounded(list@),
        decreases SHARD_NUM - candidate,
    {
        let there = fee_on_shard(chain, graph, addr, home, candidate);
        if at_home >= there {
            list.push((at_home - there, candidate));
        }
        candidate = candidate + 1;
    }
    list
}

/// What is saved on all the shards of `list` together.
pub fn sum_reductions(list: &Vec<Reduction>) -> (total: Wei)
    requires
        list.len() <= SHARD_NUM,
        reductions_are_bounded(list@),
    ensures
        total == total_reduction(list@),
{
    let mut total: Wei = 0;
    let mut k: usize = 0;
    proof {
        assert(list@.take(0) =~= Seq::empty());
    }
    while k < list.len()
        invariant
            k <= list.len() <= SHARD_NUM,
            reductions_are_bounded(list@),
            total == total_reduction(list@.take(k as int)),
            total <= k * EXPECTED_FEE_LIMIT,
        decreases list.len() - k,
    {
        proof {
            assert(list@.take(k + 1).drop_last() =~= list@.take(k as int));
            assert(list@.take(k + 1).last() == list@[k as int]);
            assert(k * EXPECTED_FEE_LIMIT + EXPECTED_FEE_LIMIT <= 64 * EXPECTED_FEE_LIMIT)
                by (nonlinear_arith)
                requires
                    k < 64,
            ;
        }
        total = total + list[k].0;
        k = k + 1;
    }
    proof {
        assert(list@.take(k as int) =~= list@);
    }
    total
}

/// The decision for the shard of `choice`.
pub fn decide(home: usize, choice: Reduction) -> (decision: Decision)
    ensures
        decision == decision_for(home as int, choice),
{
    if choice.1 == home {
        (choice.1, None)
    } else {
        (choice.1, Some(choice.0 / (GAS_APPLY_CROSS_TRANSFER_ALL + GAS_CREATE_CROSS_TRANSFER_ALL)))
    }
}

/// The shard with which the account of the user `addr` is stamped, and
/// the shards on which the user expects to pay no more than there, the
/// least saving first.
pub fn sorted_fee_reductions(chain: &ShardedBlockchain, graph: &UserGraph, addr: Address) -> (found:
    (usize, Vec<Reduction>))
    requires
        chain.wf(),
        graph.wf(),
        users_are_placed(chain@, graph@.nodes.len() as int),
        addr < graph@.nodes.len(),
    ensures
        found.0 == home_shard(chain@, addr),
        found.0 < SHARD_NUM,
        found.1@ == sorted_reductions(chain@, graph@, addr),
        found.1.len() <= SHARD_NUM,
        reductions_are_bounded(found.1@),
{
    proof {
        lemma_placed_account(chain@, graph@.nodes.len() as int, addr);
    }
    let (_, account) = chain.get_account(addr);
    let home: usize = match account {
        Some(account) => account.shard_id,
        None => vstd::pervasive::unreached(),
    };
    let mut sorted = fee_reductions(chain, graph, addr, home);
    let ghost listed = sorted@;
    sort_by_first(&mut sorted);
    proof {
        lemma_stable_sort_len(listed, reduction_rank());
        let bounded = |r: Reduction| r.0 <= EXPECTED_FEE_LIMIT && r.1 < SHARD_NUM;
        assert forall|k: int| 0 <= k < listed.len() implies bounded(#[trigger] listed[k]) by {}
        lemma_stable_sort_keeps(listed, reduction_rank(), bounded);
        assert forall|k: int| 0 <= k < sorted@.len() implies (#[trigger] sorted@[k]).0
            <= EXPECTED_FEE_LIMIT && sorted@[k].1 < SHARD_NUM by {
            assert(bounded(sorted@[k]));
        }
        assert(sorted@ == sorted_reductions(chain@, graph@, addr));
    }
    (home, sorted)
}

/// Whether the decision of the user `addr` with the strategy `user_type`
/// goes by a number drawn: the strategy is the weighted random one, and
/// some shard saves something.
pub open spec fn decision_needs_draw(
    chain: ShardedBlockchainView,
    graph: UserGraphView,
    addr: Address,
    user_type: StrategyType,
) -> bool {
    user_type == StrategyType::WeightedRandom && total_reduction(
        sorted_reductions(chain, graph, addr),
    ) > 0
}

/// Whether the decision of the user `addr` with the strategy `user_type`
/// goes by a number drawn.
pub fn needs_draw(
    chain: &ShardedBlockchain,
    graph: &UserGraph,
    addr: Address,
    user_type: StrategyType,
) -> (needed: bool)
    requires
        chain.wf(),
        graph.wf(),
        users_are_placed(chain@, graph@.nodes.len() as int),
        addr < graph@.nodes.len(),
    ensures
        needed == decision_needs_draw(chain@, graph@, addr, user_type),
{
    match user_type {
        StrategyType::WeightedRandom => {
            let (_, sorted) = sorted_fee_reductions(chain, graph, addr);
            sum_reductions(&sorted) > 0
        },
        _ => false,
    }
}

/// The decision of the user `addr` with the strategy `user_type`; `draw`
/// is the number that a user of weighted random strategy goes by.
pub fn choose_shard(
    chain: &ShardedBlockchain,
    graph: &UserGraph,
    addr: Address,
    user_type: StrategyType,
    draw: u32,
) -> (decision: Decision)
    requires
        chain.wf(),
        graph.wf(),
        users_are_placed(chain@, graph@.nodes.len() as int),
        addr < graph@.nodes.len(),
    ensures
        decision == chosen_shard(chain@, graph@, addr, user_type, draw),
        decision.0 < SHARD_NUM,
{
    let (home, sorted) = sorted_fee_reductions(chain, graph, addr);
    let total = sum_reductions(&sorted);
    if total == 0 {
        return (home, None);
    }
    match user_type {
        StrategyType::NonSwitcher => (home, None),
        StrategyType::WeightedRandom => {
            let mut cumulative_reduction: Wei = 0;
            let mut k: usize = 0;
            proof {
                assert(sorted@.skip(0) =~= sorted@);
                assert(sorted@.take(0) =~= Seq::empty());
            }
            while k < sorted.len()
                invariant
                    k <= sorted.len() <= SHARD_NUM,
                    reductions_are_bounded(sorted@),
                    home < SHARD_NUM,
                    home == home_shard(chain@, addr),
                    sorted@ == sorted_reductions(chain@, graph@, addr),
                    total == total_reduction(sorted@),
                    total != 0,
                    user_type == StrategyType::WeightedRandom,
                    cumulative_reduction == total_reduction(sorted@.take(k as int)),
                    cumulative_reduction <= k * EXPECTED_FEE_LIMIT,
                    weighted_choice(sorted@, total as int, draw, 0) == weighted_choice(
                        sorted@.skip(k as int),
                        total as int,
                        draw,
                        cumulative_reduction as int,
                    ),
                decreases sorted.len() - k,
            {
                proof {
                    assert(sorted@.take(k + 1).drop_last() =~= sorted@.take(k as int));
                    assert(sorted@.take(k + 1).last() == sorted@[k as int]);
                    assert(sorted@.skip(k as int).first() == sorted@[k as int]);
                    assert(sorted@.skip(k as int).drop_first() =~= sorted@.skip(k + 1));
                    assert(k * EXPECTED_FEE_LIMIT + EXPECTED_FEE_LIMIT <= 64 * EXPECTED_FEE_LIMIT)
                        by (nonlinear_arith)
                        requires
                            k < 64,
                    ;
                }
                cumulative_reduction = cumulative_reduction + sorted[k].0;
                if fraction_exceeds(cumulative_reduction, total, draw) {
                    return decide(home, sorted[k]);
                }
                k = k + 1;
            }
            (home, None)
        },
        StrategyType::Minimum => {
            let choice = sorted[sorted.len() - 1];
            decide(home, choice)
        },
        StrategyType::DecreasingMinimum => {
            let mut k: usize = sorted.len();
            proof {
                assert(sorted@.take(k as int) =~= sorted@);
            }
            while k > 0
                invariant
                    k <= sorted.len(),
                    chain.wf(),
                    reductions_are_bounded(sorted@),
                    home < SHARD_NUM,
                    home == home_shard(chain@, addr),
                    sorted@ == sorted_reductions(chain@, graph@, addr),
                    total == total_reduction(sorted@),
                    total != 0,
                    user_type == StrategyType::DecreasingMinimum,
                    decreasing_choice(chain@, sorted@, home as int) == decreasing_choice(
                        chain@,
                        sorted@.take(k as int),
                        home as int,
                    ),
                decreases k,
            {
                proof {
                    assert(sorted@.take(k as int).last() == sorted@[k - 1]);
                    assert(sorted@.take(k as int).drop_last() =~= sorted@.take(k - 1));
                }
                let choice = sorted[k - 1];
                if choice.1 == home {
                    return (home, None);
                }
                let shard = &chain.shards[choice.1];
                let states_length = shard.states.len();
                if states_length < 2 {
                    return (home, None);
                }
                if shard.states[states_length - 2].base_fee < shard.states[states_length
                    - 1].base_fee {
                    k = k - 1;
                } else {
                    return decide(home, choice);
                }
            }
            (home, None)
        },
    }
}

} // verus!
