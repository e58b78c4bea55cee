use crate::custom_types::{Address, GasPrice};
use crate::ordering::{first_rank, lemma_stable_sort_len, sort_by_first, stable_sort};
use crate::parameters::{MAX_FEE_CAP, MAX_TARGET_USER_NUM, POPULAR_USER_ADDRESS};
use crate::probability::{normalize, normalized_probability, Probability, MAX_PROBABILITY};
use crate::rng::{next_u32, next_u64};
use rand_xorshift::XorShiftRng;
use vstd::prelude::*;

verus! {

/// The highest fee cap that an edge may carry.
pub const FEE_CAP_LIMIT: GasPrice = 18_446_744_073_709_551_615;

/// The most edges that may leave one node.
pub const EDGE_LIMIT: usize = 65_536;

/// A draw below this number sends a user's first transfer to the popular
/// user: a tenth of the 32-bit range.
pub const POPULAR_USER_DRAW_BOUND: u32 = 429_496_729;

/// An edge of the user graph: `from` transfers to `to`.
#[derive(Clone, Copy, Debug)]
pub struct UserGraphEdge {
    pub from: Address,
    pub to: Address,
    pub fee_cap: GasPrice,
    /// The weight of the edge while the graph is built; the probability
    /// of a transfer in a slot once the graph is normalized.
    pub transfer_probability_in_slot: Probability,
}

impl UserGraphEdge {
    pub fn new(
        from: Address,
        to: Address,
        fee_cap: GasPrice,
        transfer_probability_in_slot: Probability,
    ) -> (edge: Self)
        ensures
            edge == (UserGraphEdge { from, to, fee_cap, transfer_probability_in_slot }),
    {
        Self { from, to, fee_cap, transfer_probability_in_slot }
    }
}

/// A node of the user graph.
#[derive(Clone, Copy, Debug)]
pub struct UserGraphNode {
    pub account_addr: usize,
    /// How many edges were laid to this node; the field is wide enough
    /// for any number of them.
    pub in_degree: u128,
    /// How many edges were laid from this node.
    pub out_degree: u128,
}

/// Who transfers to whom: for each node the edges that leave it, in the
/// order in which their targets first came up, no target twice.
pub struct UserGraph {
    pub nodes: Vec<UserGraphNode>,
    pub edges: Vec<Vec<UserGraphEdge>>,
}

/// What a `UserGraph` holds, as mathematical values.
pub struct UserGraphView {
    pub nodes: Seq<UserGraphNode>,
    pub edges: Seq<Seq<UserGraphEdge>>,
}

/// The views of the rows of edges.
pub open spec fn rows_view(rows: Seq<Vec<UserGraphEdge>>) -> Seq<Seq<UserGraphEdge>> {
    rows.map_values(|row: Vec<UserGraphEdge>| row@)
}

impl View for UserGraph {
    type V = UserGraphView;

    open spec fn view(&self) -> UserGraphView {
        UserGraphView { nodes: self.nodes@, edges: rows_view(self.edges@) }
    }
}

/// The place of the edge to `to` in `row`, or the length of `row` where
/// no edge leads there.
pub open spec fn target_index(row: Seq<UserGraphEdge>, to: Address) -> int
    decreases row.len(),
{
    if row.len() == 0 {
        0
    } else if row.first().to == to {
        0
    } else {
        1 + target_index(row.drop_first(), to)
    }
}

/// Whether an edge of `row` leads to `to`.
pub open spec fn has_target(row: Seq<UserGraphEdge>, to: Address) -> bool {
    target_index(row, to) < row.len()
}

/// The row with `edge` in it: in the place of the edge to the same target,
/// or at the end where there was none.
pub open spec fn row_with(row: Seq<UserGraphEdge>, edge: UserGraphEdge) -> Seq<UserGraphEdge> {
    if has_target(row, edge.to) {
        row.update(target_index(row, edge.to), edge)
    } else {
        row.push(edge)
    }
}

/// The row with every weight turned into a probability.
pub open spec fn normalized_row(row: Seq<UserGraphEdge>, total: int) -> Seq<UserGraphEdge> {
    row.map_values(
        |edge: UserGraphEdge|
            UserGraphEdge {
                transfer_probability_in_slot: normalized_probability(
                    edge.transfer_probability_in_slot as int,
                    total,
                ) as Probability,
                ..edge
            },
    )
}

/// Whether no two edges of `row` lead to the same target.
pub open spec fn targets_differ(row: Seq<UserGraphEdge>) -> bool {
    forall|j: int, k: int| 0 <= j < k < row.len() ==> row[j].to != row[k].to
}

impl UserGraphView {
    /// The graph of `user_num` nodes without edges.
    pub open spec fn with_nodes(user_num: nat) -> UserGraphView {
        UserGraphView {
            nodes: Seq::new(
                user_num,
                |i: int| UserGraphNode { account_addr: i as usize, in_degree: 0, out_degree: 0 },
            ),
            edges: Seq::new(user_num, |i: int| Seq::empty()),
        }
    }

    /// Whether `edge` may enter the graph: both ends are nodes, the fee
    /// cap is within the limit, and the row of its source has room.
    pub open spec fn takes(self, edge: UserGraphEdge) -> bool {
        &&& edge.from < self.nodes.len()
        &&& edge.to < self.nodes.len()
        &&& edge.fee_cap <= FEE_CAP_LIMIT
        &&& (has_target(self.edges[edge.from as int], edge.to) || self.edges[edge.from as int].len()
            < EDGE_LIMIT)
    }

    /// The graph with `edge` in it. It stands in the place of an edge
    /// between the same nodes, if there was one. Both ends count the edge.
    pub open spec fn with_edge(self, edge: UserGraphEdge) -> UserGraphView {
        let source = self.nodes[edge.from as int];
        let counted = self.nodes.update(
            edge.from as int,
            UserGraphNode { out_degree: (source.out_degree + 1) as u128, ..source },
        );
        let target = counted[edge.to as int];
        UserGraphView {
            nodes: counted.update(
                edge.to as int,
                UserGraphNode { in_degree: (target.in_degree + 1) as u128, ..target },
            ),
            edges: self.edges.update(edge.from as int, row_with(self.edges[edge.from as int],
                edge)),
        }
    }

    /// The graph with every weight turned into a probability, where all
    /// transfers together have the weight `total`.
    pub open spec fn normalized(self, total: int) -> UserGraphView {
        UserGraphView {
            nodes: self.nodes,
            edges: self.edges.map_values(|row: Seq<UserGraphEdge>| normalized_row(row, total)),
        }
    }

    /// Whether the graph is well laid out: each node has its row of edges
    /// and knows its address; each edge leaves the node of its row for a
    /// node of the graph, with a fee cap within the limit; no row holds
    /// two edges to one target, nor more edges than the limit.
    pub open spec fn laid_out(self) -> bool {
        &&& self.edges.len() == self.nodes.len()
        &&& forall|i: int| 0 <= i < self.nodes.len()
            ==> (#[trigger] self.nodes[i]).account_addr == i
        &&& forall|i: int|
            0 <= i < self.edges.len() ==> (#[trigger] self.edges[i]).len() <= EDGE_LIMIT
                && targets_differ(self.edges[i])
        &&& forall|i: int, k: int|
            0 <= i < self.edges.len() && 0 <= k < self.edges[i].len() ==> {
                let edge = #[trigger] self.edges[i][k];
                &&& edge.from == i
                &&& edge.to < self.nodes.len()
                &&& edge.fee_cap <= FEE_CAP_LIMIT
            }
    }

    /// Whether the graph is well formed: it is well laid out, and no
    /// probability is above `MAX_PROBABILITY`.
    pub open spec fn wf(self) -> bool {
        &&& self.laid_out()
        &&& forall|i: int, k: int|
            0 <= i < self.edges.len() && 0 <= k < self.edges[i].len() ==> (
            #[trigger] self.edges[i][k]).transfer_probability_in_slot <= MAX_PROBABILITY
    }
}

/// The index points at the edge to `to`, and at no place before it does
/// an edge lead there.
pub proof fn lemma_target_index(row: Seq<UserGraphEdge>, to: Address)
    ensures
        0 <= target_index(row, to) <= row.len(),
        has_target(row, to) ==> row[target_index(row, to)].to == to,
        forall|j: int| 0 <= j < target_index(row, to) ==> (#[trigger] row[j]).to != to,
    decreases row.len(),
{
    if row.len() > 0 && row.first().to != to {
        let rest = row.drop_first();
        lemma_target_index(rest, to);
        assert forall|j: int| 0 <= j < target_index(row, to) implies (#[trigger] row[j]).to
            != to by {
            if j > 0 {
                assert(row[j] == rest[j - 1]);
            }
        }
        if has_target(row, to) {
            assert(row[target_index(row, to)] == rest[target_index(rest, to)]);
        }
    }
}

/// A place before which no edge leads to `to`, and which holds such an
/// edge or is the end of the row, is the index of `to`.
pub proof fn lemma_target_index_is(row: Seq<UserGraphEdge>, to: Address, k: int)
    requires
        0 <= k <= row.len(),
        forall|j: int| 0 <= j < k ==> (#[trigger] row[j]).to != to,
        k < row.len() ==> row[k].to == to,
    ensures
        target_index(row, to) == k,
{
    lemma_target_index(row, to);
    let found = target_index(row, to);
    if found < k {
        assert(row[found].to != to);
    }
}

/// Putting an edge into a row whose targets differ leaves them different;
/// the row grows by one edge at most and shrinks never.
pub proof fn lemma_row_with(row: Seq<UserGraphEdge>, edge: UserGraphEdge)
    requires
        targets_differ(row),
    ensures
        targets_differ(row_with(row, edge)),
        row.len() <= row_with(row, edge).len() <= row.len() + 1,
        has_target(row, edge.to) ==> row_with(row, edge).len() == row.len(),
        forall|k: int|
            0 <= k < row_with(row, edge).len() ==> (#[trigger] row_with(row, edge)[k]) == edge || (k
                < row.len() && row_with(row, edge)[k] == row[k]),
{
    lemma_target_index(row, edge.to);
    let out = row_with(row, edge);
    let at = target_index(row, edge.to);
    assert forall|j: int, k: int| 0 <= j < k < out.len() implies out[j].to != out[k].to by {
        if has_target(row, edge.to) {
            if j == at {
                assert(row[at].to == edge.to);
                assert(row[j].to != row[k].to);
            } else if k == at {
                assert(row[j].to != row[k].to);
            } else {
                assert(row[j].to != row[k].to);
            }
        } else {
            if k == row.len() {
                assert(row[j].to != edge.to);
            } else {
                assert(row[j].to != row[k].to);
            }
        }
    }
}

/// The degree of every node with its address, in the order of the nodes:
/// the edges laid from it if `outgoing`, else the edges laid to it.
pub open spec fn degrees_of(nodes: Seq<UserGraphNode>, outgoing: bool) -> Seq<(u128, usize)> {
    nodes.map_values(
        |node: UserGraphNode|
            (
                if outgoing {
                    node.out_degree
                } else {
                    node.in_degree
                },
                node.account_addr,
            ),
    )
}

/// The degree of every node with its address, the highest degree first;
/// among equal degrees the highest address first.
pub open spec fn ranked_degrees(nodes: Seq<UserGraphNode>, outgoing: bool) -> Seq<(u128, usize)> {
    stable_sort(degrees_of(nodes, outgoing), first_rank()).reverse()
}

/// Whether `holds` is true of every edge of the graph.
pub open spec fn every_edge(graph: UserGraphView, holds: spec_fn(UserGraphEdge) -> bool) -> bool {
    forall|i: int, k: int|
        0 <= i < graph.edges.len() && 0 <= k < graph.edges[i].len() ==> holds(
            #[trigger] graph.edges[i][k],
        )
}

/// What holds of every edge of a graph and of a new edge holds of every
/// edge of the graph with the new edge in it.
pub proof fn lemma_with_edge_keeps(
    graph: UserGraphView,
    edge: UserGraphEdge,
    holds: spec_fn(UserGraphEdge) -> bool,
)
    requires
        graph.laid_out(),
        graph.takes(edge),
        every_edge(graph, holds),
        holds(edge),
    ensures
        every_edge(graph.with_edge(edge), holds),
{
    let after = graph.with_edge(edge);
    lemma_row_with(graph.edges[edge.from as int], edge);
    assert forall|i: int, k: int|
        0 <= i < after.edges.len() && 0 <= k < after.edges[i].len() implies holds(
        #[trigger] after.edges[i][k],
    ) by {
        if i == edge.from {
            if after.edges[i][k] != edge {
                assert(after.edges[i][k] == graph.edges[i][k]);
            }
        } else {
            assert(after.edges[i][k] == graph.edges[i][k]);
        }
    }
}

/// Whether `graph` is the graph `weighted`, whose edges carry weights
/// below 100, with every weight turned into a probability for the weight
/// `total` of all transfers.
pub open spec fn is_normalized_from(graph: UserGraphView, weighted: UserGraphView, total: int)
    -> bool {
    &&& weighted.laid_out()
    &&& every_edge(weighted, |edge: UserGraphEdge| edge.transfer_probability_in_slot < 100)
    &&& graph == weighted.normalized(total)
}

/// How many targets a user gets for the number `draw`, where a user has
/// `max_target_user_num` targets at most.
pub open spec fn drawn_target_count(draw: u32, max_target_user_num: usize) -> int {
    draw as int % (max_target_user_num + 1)
}

/// The target that the number `draw` picks among `user_num` users.
pub open spec fn drawn_target(draw: u32, user_num: usize) -> int {
    draw as int % (user_num as int)
}

/// The weight that the number `draw` gives an edge.
pub open spec fn drawn_weight(draw: u32) -> int {
    draw as int % 100
}

/// The fee cap that the number `draw` gives an edge.
pub open spec fn drawn_fee_cap(draw: u64) -> int {
    draw as int % (MAX_FEE_CAP as int)
}

impl UserGraph {
    /// Whether the graph is well laid out.
    pub open spec fn laid_out(&self) -> bool {
        self@.laid_out()
    }

    /// Whether the graph is well formed.
    pub open spec fn wf(&self) -> bool {
        self@.wf()
    }

    /// The graph without nodes.
    pub fn new() -> (graph: Self)
        ensures
            graph@ == UserGraphView::with_nodes(0),
            graph.wf(),
    {
        let graph = UserGraph { nodes: Vec::new(), edges: Vec::new() };
        assert(graph@.nodes =~= UserGraphView::with_nodes(0).nodes);
        assert(graph@.edges =~= UserGraphView::with_nodes(0).edges);
        graph
    }

    /// The graph of `user_num` nodes without edges.
    pub fn with_nodes(user_num: usize) -> (graph: Self)
        ensures
            graph@ == UserGraphView::with_nodes(user_num as nat),
            graph.wf(),
    {
        let mut nodes: Vec<UserGraphNode> = Vec::new();
        let mut edges: Vec<Vec<UserGraphEdge>> = Vec::new();
        let mut addr: usize = 0;
        while addr < user_num
            invariant
                addr <= user_num,
                nodes.len() == addr,
                edges.len() == addr,
                forall|i: int|
                    0 <= i < addr ==> #[trigger] nodes[i] == (UserGraphNode {
                        account_addr: i as usize,
                        in_degree: 0,
                        out_degree: 0,
                    }),
                forall|i: int| 0 <= i < addr
                    ==> (#[trigger] edges[i])@ == Seq::<UserGraphEdge>::empty(),
            decreases user_num - addr,
        {
            nodes.push(UserGraphNode { account_addr: addr, in_degree: 0, out_degree: 0 });
            edges.push(Vec::new());
            addr = addr + 1;
        }
        let graph = UserGraph { nodes, edges };
        assert(graph@.nodes =~= UserGraphView::with_nodes(user_num as nat).nodes);
        assert(graph@.edges =~= UserGraphView::with_nodes(user_num as nat).edges);
        graph
    }

    /// The edge from `from` to `to`.
    pub fn get_edge(&self, from: Address, to: Address) -> (edge: &UserGraphEdge)
        requires
            from < self@.edges.len(),
            has_target(self@.edges[from as int], to),
        ensures
            *edge == self@.edges[from as int][target_index(self@.edges[from as int], to)],
            edge.to == to,
    {
        let row = &self.edges[from];
        let mut k: usize = 0;
        proof {
            lemma_target_index(row@, to);
        }
        while k < row.len() && row[k].to != to
            invariant
                k <= row.len(),
                forall|j: int| 0 <= j < k ==> (#[trigger] row@[j]).to != to,
            decreases row.len() - k,
        {
            k = k + 1;
        }
        proof {
            lemma_target_index_is(row@, to, k as int);
        }
        &row[k]
    }

    /// Lays `edge` into the graph, in the place of the edge between the
    /// same nodes if there is one. Both ends count the edge.
    pub fn insert_edge(&mut self, edge: UserGraphEdge)
        requires
            old(self).laid_out(),
            old(self)@.takes(edge),
            old(self)@.nodes[edge.from as int].out_degree < u128::MAX,
            old(self)@.nodes[edge.to as int].in_degree < u128::MAX,
        ensures
            final(self)@ == old(self)@.with_edge(edge),
            final(self).laid_out(),
    {
        let ghost start = self@;
        let ghost row = start.edges[edge.from as int];
        let mut k: usize = 0;
        while k < self.edges[edge.from].len() && self.edges[edge.from][k].to != edge.to
            invariant
                self@ == start,
                edge.from < self.edges.len(),
                row == start.edges[edge.from as int],
                k <= row.len(),
                forall|j: int| 0 <= j < k ==> (#[trigger] row[j]).to != edge.to,
            decreases row.len() - k,
        {
            k = k + 1;
        }
        proof {
            lemma_target_index_is(row, edge.to, k as int);
            lemma_row_with(row, edge);
        }
        if k < self.edges[edge.from].len() {
            self.edges[edge.from][k] = edge;
        } else {
            self.edges[edge.from].push(edge);
        }
        self.nodes[edge.from].out_degree = self.nodes[edge.from].out_degree + 1;
        self.nodes[edge.to].in_degree = self.nodes[edge.to].in_degree + 1;
        proof {
            let after = start.with_edge(edge);
            assert(self@.edges =~= after.edges);
            assert(self@.nodes =~= after.nodes);
            assert forall|i: int, j: int|
                0 <= i < after.edges.len() && 0 <= j < after.edges[i].len() implies {
                let e = #[trigger] after.edges[i][j];
                &&& e.from == i
                &&& e.to < after.nodes.len()
                &&& e.fee_cap <= FEE_CAP_LIMIT
            } by {
                if i == edge.from {
                    let e = after.edges[i][j];
                    if e != edge {
                        assert(e == start.edges[i][j]);
                    }
                } else {
                    assert(after.edges[i][j] == start.edges[i][j]);
                }
            }
            assert forall|i: int| 0 <= i < after.edges.len() implies (
            #[trigger] after.edges[i]).len() <= EDGE_LIMIT && targets_differ(after.edges[i]) by {
                if i != edge.from {
                    assert(after.edges[i] == start.edges[i]);
                }
            }
            assert forall|i: int| 0 <= i < after.nodes.len() implies (
            #[trigger] after.nodes[i]).account_addr == i by {
                assert(start.nodes[i].account_addr == i);
            }
        }
    }

    /// Turns every weight into a probability, where all transfers
    /// together have the weight `total`.
    pub fn normalize_all(&mut self, total: u128)
        requires
            old(self).laid_out(),
            every_edge(
                old(self)@,
                |edge: UserGraphEdge| edge.transfer_probability_in_slot <= total,
            ),
        ensures
            final(self)@ == old(self)@.normalized(total as int),
            final(self).wf(),
    {
        let ghost start = self@;
        let ghost below = |edge: UserGraphEdge| edge.transfer_probability_in_slot <= total;
        let mut i: usize = 0;
        while i < self.edges.len()
            invariant
                i <= self.edges.len(),
                start.laid_out(),
                every_edge(start, below),
                below == |edge: UserGraphEdge| edge.transfer_probability_in_slot <= total,
                self@.nodes == start.nodes,
                self@.edges.len() == start.edges.len(),
                forall|r: int|
                    0 <= r < i ==> (#[trigger] self@.edges[r]) == normalized_row(
                        start.edges[r],
                        total as int,
                    ),
                forall|r: int| i <= r < self.edges.len()
                    ==> (#[trigger] self@.edges[r]) == start.edges[r],
                forall|r: int, c: int|
                    0 <= r < i && 0 <= c < self@.edges[r].len() ==> (
                    #[trigger] self@.edges[r][c]).transfer_probability_in_slot <= MAX_PROBABILITY,
            decreases self.edges.len() - i,
        {
            let mut k: usize = 0;
            proof {
                assert(self@.edges[i as int] == start.edges[i as int]);
            }
            while k < self.edges[i].len()
                invariant
                    i < self.edges.len(),
                    k <= self.edges[i as int].len(),
                    start.laid_out(),
                    every_edge(start, below),
                    below == |edge: UserGraphEdge| edge.transfer_probability_in_slot <= total,
                    self@.nodes == start.nodes,
                    self@.edges.len() == start.edges.len(),
                    self@.edges[i as int].len() == start.edges[i as int].len(),
                    forall|r: int|
                        0 <= r < i ==> (#[trigger] self@.edges[r]) == normalized_row(
                            start.edges[r],
                            total as int,
                        ),
                    forall|r: int|
                        i < r < self.edges.len() ==> (#[trigger] self@.edges[r]) == start.edges[r],
                    forall|c: int|
                        0 <= c < k ==> (#[trigger] self@.edges[i as int][c]) == normalized_row(
                            start.edges[i as int],
                            total as int,
                        )[c],
                    forall|c: int|
                        k <= c < self@.edges[i as int].len()
                            ==> (#[trigger] self@.edges[i as int][c])
                            == start.edges[i as int][c],
                    forall|r: int, c: int|
                        0 <= r < i && 0 <= c < self@.edges[r].len() ==> (
                        #[trigger] self@.edges[r][c]).transfer_probability_in_slot
                            <= MAX_PROBABILITY,
                    forall|c: int|
                        0 <= c < k ==> (
                        #[trigger] self@.edges[i as int][c]).transfer_probability_in_slot
                            <= MAX_PROBABILITY,
                decreases self.edges[i as int].len() - k,
            {
                let ghost before = self@;
                let weight = self.edges[i][k].transfer_probability_in_slot;
                proof {
                    assert(self@.edges[i as int][k as int] == start.edges[i as int][k as int]);
                    assert(below(start.edges[i as int][k as int]));
                }
                let p = normalize(weight, total);
                self.edges[i][k].transfer_probability_in_slot = p;
                proof {
                    assert forall|r: int| 0 <= r < self.edges.len() && r != i implies (
                    #[trigger] self@.edges[r]) == before.edges[r] by {}
                    assert forall|c: int| 0 <= c < self@.edges[i as int].len() && c != k implies (
                    #[trigger] self@.edges[i as int][c]) == before.edges[i as int][c] by {}
                }
                k = k + 1;
            }
            proof {
                assert(self@.edges[i as int] =~= normalized_row(start.edges[i as int],
                    total as int));
            }
            i = i + 1;
        }
        proof {
            let after = start.normalized(total as int);
            assert(self@.edges =~= after.edges);
            assert forall|r: int| 0 <= r < after.edges.len() implies (
            #[trigger] after.edges[r]).len() <= EDGE_LIMIT && targets_differ(after.edges[r]) by {
                assert(start.edges[r].len() <= EDGE_LIMIT && targets_differ(start.edges[r]));
                assert forall|j: int, k: int| 0 <= j < k < after.edges[r].len()
                    implies after.edges[r][j].to
                    != after.edges[r][k].to by {
                    assert(start.edges[r][j].to != start.edges[r][k].to);
                }
            }
            assert forall|r: int, c: int|
                0 <= r < after.edges.len() && 0 <= c < after.edges[r].len() implies {
                let e = #[trigger] after.edges[r][c];
                &&& e.from == r
                &&& e.to < after.nodes.len()
                &&& e.fee_cap <= FEE_CAP_LIMIT
            } by {
                let e = start.edges[r][c];
                assert(e.from == r);
            }
        }
    }

    /// How many targets a user gets for the number `draw`.
    pub fn target_count_for(draw: u32, max_target_user_num: usize) -> (count: usize)
        requires
            max_target_user_num < usize::MAX,
        ensures
            count == drawn_target_count(draw, max_target_user_num),
            count <= max_target_user_num,
    {
        (draw as usize) % (max_target_user_num + 1)
    }

    /// Whether the number `draw` sends the first transfer of a user to
    /// the popular user: a tenth of all numbers do.
    pub fn is_drawn_to_popular_user(draw: u32) -> (drawn: bool)
        ensures
            drawn == (draw < POPULAR_USER_DRAW_BOUND),
    {
        draw < POPULAR_USER_DRAW_BOUND
    }

    /// The target that the number `draw` picks among `user_num` users.
    pub fn target_for(draw: u32, user_num: usize) -> (to: Address)
        requires
            user_num > 0,
        ensures
            to == drawn_target(draw, user_num),
            to < user_num,
    {
        (draw as usize) % user_num
    }

    /// The weight that the number `draw` gives an edge.
    pub fn weight_for(draw: u32) -> (weight: u32)
        ensures
            weight == drawn_weight(draw),
            weight < 100,
    {
        draw % 100
    }

    /// The fee cap that the number `draw` gives an edge.
    pub fn fee_cap_for(draw: u64) -> (fee_cap: GasPrice)
        ensures
            fee_cap == drawn_fee_cap(draw),
            fee_cap < MAX_FEE_CAP,
    {
        (draw as GasPrice) % MAX_FEE_CAP
    }

    /// A random graph of `user_num` users. Each user gets up to
    /// `MAX_TARGET_USER_NUM` targets, drawn from the generator, with a
    /// weight below 100 and a fee cap below `MAX_FEE_CAP` for each edge;
    /// no user transfers to itself. Where a popular user exists, a tenth
    /// of the users transfer to it first, and the popular user does so
    /// always if it is a switcher. The weights are then turned into
    /// probabilities.
    pub fn new_random(
        user_num: usize,
        popular_user_exists: bool,
        popular_user_is_switcher: bool,
        rng: &mut XorShiftRng,
    ) -> (graph: Self)
        ensures
            graph.wf(),
            graph@.nodes.len() == user_num,
            forall|i: int|
                0 <= i < graph@.edges.len() ==> (#[trigger] graph@.edges[i]).len()
                    <= MAX_TARGET_USER_NUM,
            every_edge(
                graph@,
                |edge: UserGraphEdge| edge.from != edge.to && edge.fee_cap < MAX_FEE_CAP,
            ),
            exists|weighted: UserGraphView, total: int| #[trigger]
                is_normalized_from(graph@, weighted, total),
    {
        let mut graph = Self::with_nodes(user_num);
        let max_target_user_num = if MAX_TARGET_USER_NUM < user_num {
            MAX_TARGET_USER_NUM
        } else {
            user_num
        };
        let ghost apart = |edge: UserGraphEdge| edge.from != edge.to && edge.fee_cap < MAX_FEE_CAP;
        let ghost light = |edge: UserGraphEdge| edge.transfer_probability_in_slot < 100;
        let mut number_of_transactions: u128 = 0;
        let mut from: usize = 0;
        while from < user_num
            invariant
                from <= user_num,
                max_target_user_num <= MAX_TARGET_USER_NUM,
                max_target_user_num <= user_num,
                apart == |edge: UserGraphEdge| edge.from != edge.to && edge.fee_cap < MAX_FEE_CAP,
                light == |edge: UserGraphEdge| edge.transfer_probability_in_slot < 100,
                graph.laid_out(),
                graph@.nodes.len() == user_num,
                number_of_transactions <= from * MAX_TARGET_USER_NUM * 100,
                every_edge(graph@, apart),
                every_edge(graph@, light),
                every_edge(
                    graph@,
                    |edge: UserGraphEdge|
                        edge.transfer_probability_in_slot <= number_of_transactions,
                ),
                forall|i: int|
                    0 <= i < graph@.edges.len() ==> (#[trigger] graph@.edges[i]).len()
                        <= MAX_TARGET_USER_NUM,
                forall|i: int|
                    from <= i < graph@.edges.len() ==> (#[trigger] graph@.edges[i]).len() == 0,
                forall|i: int|
                    0 <= i < graph@.nodes.len() ==> (#[trigger] graph@.nodes[i]).in_degree <= from
                        * MAX_TARGET_USER_NUM && graph@.nodes[i].out_degree <= from
                        * MAX_TARGET_USER_NUM,
            decreases user_num - from,
        {
            let target_user_num = Self::target_count_for(next_u32(rng), max_target_user_num);
            let mut transfer_to_popular_user = false;
            if popular_user_exists {
                if popular_user_is_switcher && from == POPULAR_USER_ADDRESS {
                    transfer_to_popular_user = true;
                } else {
                    transfer_to_popular_user = Self::is_drawn_to_popular_user(next_u32(rng));
                }
            }
            let ghost base = number_of_transactions;
            let mut i: usize = 0;
            while i < target_user_num
                invariant
                    i <= target_user_num <= max_target_user_num,
                    from < user_num,
                        max_target_user_num <= MAX_TARGET_USER_NUM,
                    apart == |edge: UserGraphEdge| edge.from != edge.to
                        && edge.fee_cap < MAX_FEE_CAP,
                    light == |edge: UserGraphEdge| edge.transfer_probability_in_slot < 100,
                    graph.laid_out(),
                    graph@.nodes.len() == user_num,
                    base <= from * MAX_TARGET_USER_NUM * 100,
                    base <= number_of_transactions <= base + i * 100,
                    every_edge(graph@, apart),
                    every_edge(graph@, light),
                    every_edge(
                        graph@,
                        |edge: UserGraphEdge|
                            edge.transfer_probability_in_slot <= number_of_transactions,
                    ),
                    forall|r: int|
                        0 <= r < graph@.edges.len() && r != from
                            ==> (#[trigger] graph@.edges[r]).len()
                            <= MAX_TARGET_USER_NUM,
                    graph@.edges[from as int].len() <= i,
                    forall|r: int|
                        from < r < graph@.edges.len() ==> (#[trigger] graph@.edges[r]).len() == 0,
                    forall|r: int|
                        0 <= r < graph@.nodes.len() ==> (#[trigger] graph@.nodes[r]).in_degree
                            <= from * MAX_TARGET_USER_NUM + i && graph@.nodes[r].out_degree <= from
                            * MAX_TARGET_USER_NUM + i,
                decreases target_user_num - i,
            {
                let to = if i == 0 && transfer_to_popular_user {
                    POPULAR_USER_ADDRESS
                } else {
                    Self::target_for(next_u32(rng), user_num)
                };
                if from != to {
                    let weight = Self::weight_for(next_u32(rng));
                    let fee_cap = Self::fee_cap_for(next_u64(rng));
                    let edge = UserGraphEdge::new(from, to, fee_cap, weight as u64);
                    let ghost before = graph@;
                    let ghost total = number_of_transactions;
                    proof {
                        assert(from * MAX_TARGET_USER_NUM + i < 0x1_0000_0000_0000_0000 * 16)
                            by (nonlinear_arith)
                            requires
                                from < 0x1_0000_0000_0000_0000,
                                i < MAX_TARGET_USER_NUM,
                                MAX_TARGET_USER_NUM == 15,
                        ;
                        assert(before.takes(edge));
                    }
                    graph.insert_edge(edge);
                    number_of_transactions = number_of_transactions + weight as u128;
                    proof {
                        let grown = number_of_transactions;
                        let below = |edge: UserGraphEdge| edge.transfer_probability_in_slot
                            <= grown;
                        assert(every_edge(before, below)) by {
                            assert forall|r: int, c: int|
                                0 <= r < before.edges.len()
                                    && 0 <= c < before.edges[r].len() implies below(
                                #[trigger] before.edges[r][c],
                            ) by {
                                assert(before.edges[r][c].transfer_probability_in_slot <= total);
                            }
                        }
                        lemma_with_edge_keeps(before, edge, below);
                        lemma_with_edge_keeps(before, edge, apart);
                        lemma_with_edge_keeps(before, edge, light);
                        lemma_row_with(before.edges[from as int], edge);
                        assert forall|r: int|
                            0 <= r < graph@.edges.len() && r != from implies (
                        #[trigger] graph@.edges[r]) == before.edges[r] by {}
                        assert forall|r: int| 0 <= r < graph@.nodes.len() implies (
                        #[trigger] graph@.nodes[r]).in_degree <= from * MAX_TARGET_USER_NUM + i
                            + 1 && graph@.nodes[r].out_degree <= from * MAX_TARGET_USER_NUM + i
                            + 1 by {
                            assert(before.nodes[r].in_degree <= from * MAX_TARGET_USER_NUM + i);
                        }
                    }
                }
                i = i + 1;
            }
            from = from + 1;
            proof {
                assert((from - 1) * MAX_TARGET_USER_NUM * 100 + MAX_TARGET_USER_NUM * 100 == from
                    * MAX_TARGET_USER_NUM * 100) by (nonlinear_arith);
                assert((from - 1) * MAX_TARGET_USER_NUM + MAX_TARGET_USER_NUM == from
                    * MAX_TARGET_USER_NUM) by (nonlinear_arith);
            }
        }
        let ghost built = graph@;
        graph.normalize_all(number_of_transactions);
        proof {
            assert forall|r: int, c: int|
                0 <= r < graph@.edges.len() && 0 <= c < graph@.edges[r].len() implies apart(
                #[trigger] graph@.edges[r][c],
            ) by {
                assert(apart(built.edges[r][c]));
            }
            assert forall|r: int| 0 <= r < graph@.edges.len()
                implies (#[trigger] graph@.edges[r]).len()
                <= MAX_TARGET_USER_NUM by {
                assert(built.edges[r].len() <= MAX_TARGET_USER_NUM);
            }
            assert(is_normalized_from(graph@, built, number_of_transactions as int));
        }
        graph
    }

    /// The degree of every node with its address, the highest degree
    /// first: the edges laid from it if `outgoing`, else those laid to it.
    pub fn degree_ranking(&self, outgoing: bool) -> (ranking: Vec<(u128, usize)>)
        ensures
            ranking@ == ranked_degrees(self@.nodes, outgoing),
    {
        let mut degrees: Vec<(u128, usize)> = Vec::new();
        let mut i: usize = 0;
        while i < self.nodes.len()
            invariant
                i <= self.nodes.len(),
                degrees@ == degrees_of(self@.nodes, outgoing).take(i as int),
            decreases self.nodes.len() - i,
        {
            let node = self.nodes[i];
            let degree = if outgoing {
                node.out_degree
            } else {
                node.in_degree
            };
            degrees.push((degree, node.account_addr));
            i = i + 1;
            assert(degrees@ =~= degrees_of(self@.nodes, outgoing).take(i as int));
        }
        proof {
            assert(degrees_of(self@.nodes, outgoing).take(i as int) =~= degrees_of(
                self@.nodes,
                outgoing,
            ));
            lemma_stable_sort_len(degrees@, first_rank());
        }
        sort_by_first(&mut degrees);
        let mut ranking: Vec<(u128, usize)> = Vec::new();
        let mut k: usize = degrees.len();
        while k > 0
            invariant
                k <= degrees.len(),
                ranking.len() == degrees.len() - k,
                forall|j: int|
                    0 <= j < ranking.len() ==> #[trigger] ranking[j] == degrees[degrees.len() - 1
                        - j],
            decreases k,
        {
            k = k - 1;
            ranking.push(degrees[k]);
        }
        assert(ranking@ =~= degrees@.reverse());
        ranking
    }
}

impl Default for UserGraph {
    fn default() -> (graph: Self)
        ensures
            graph@ == UserGraphView::with_nodes(0),
    {
        Self::new()
    }
}

} // verus!
