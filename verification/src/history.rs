use crate::custom_types::Address;
use crate::probability::{normalize, normalized_probability, Probability, MAX_PROBABILITY};
use crate::transaction_record::TransactionRecord;
use crate::user_graph::{
    every_edge, lemma_row_with, lemma_with_edge_keeps, UserGraph, UserGraphEdge, UserGraphView,
    EDGE_LIMIT,
};
use std::collections::HashSet;
use vstd::prelude::*;

verus! {

/// What the user graph takes from a row of historic transactions.
pub struct TransactionRecordView {
    pub from_address: Seq<char>,
    pub to_address: Seq<char>,
    pub gas_price: u64,
    pub receipt_status: u64,
    pub block_number: u64,
}

impl View for TransactionRecord {
    type V = TransactionRecordView;

    open spec fn view(&self) -> TransactionRecordView {
        TransactionRecordView {
            from_address: self.from_address@,
            to_address: self.to_address@,
            gas_price: self.gas_price,
            receipt_status: self.receipt_status,
            block_number: self.block_number,
        }
    }
}

/// The views of a table of historic transactions.
pub open spec fn records_view(records: Seq<TransactionRecord>) -> Seq<TransactionRecordView> {
    records.map_values(|r: TransactionRecord| r@)
}

/// The views of a list of texts.
pub open spec fn texts_view(texts: Seq<String>) -> Seq<Seq<char>> {
    texts.map_values(|t: String| t@)
}

/// A historic transaction between two users.
#[derive(Clone, Copy, Debug)]
pub struct HistoricTransfer {
    pub from: Address,
    pub to: Address,
    pub gas_price: u64,
    pub block_number: u64,
}

/// What was taken in from a table of historic transactions: the
/// addresses in the order in which they came up, the transfers between
/// them, and whether the intake stopped for want of room.
pub struct Intake {
    pub addresses: Seq<Seq<char>>,
    pub transfers: Seq<HistoricTransfer>,
    pub stopped: bool,
}

/// The place of `address` among `addresses`, or their number where it is
/// not among them.
pub open spec fn address_index(addresses: Seq<Seq<char>>, address: Seq<char>) -> int
    decreases addresses.len(),
{
    if addresses.len() == 0 {
        0
    } else if addresses.first() == address {
        0
    } else {
        1 + address_index(addresses.drop_first(), address)
    }
}

/// The addresses with `address` among them: at the end, if it is new.
pub open spec fn with_address(addresses: Seq<Seq<char>>, address: Seq<char>) -> Seq<Seq<char>> {
    if address_index(addresses, address) < addresses.len() {
        addresses
    } else {
        addresses.push(address)
    }
}

/// What is taken in from `records`, for a graph of about `user_num`
/// users. A row of a failed transaction is passed over. The intake stops
/// at the first row that finds `user_num` addresses known or more. Else
/// sender and receiver become known, and the row becomes a transfer.
pub open spec fn intake(records: Seq<TransactionRecordView>, user_num: int) -> Intake
    decreases records.len(),
{
    if records.len() == 0 {
        Intake { addresses: Seq::empty(), transfers: Seq::empty(), stopped: false }
    } else {
        let before = intake(records.drop_last(), user_num);
        let record = records.last();
        if before.stopped || record.receipt_status == 0 {
            before
        } else if before.addresses.len() >= user_num {
            Intake { stopped: true, ..before }
        } else {
            let known = with_address(
                with_address(before.addresses, record.from_address),
                record.to_address,
            );
            Intake {
                addresses: known,
                transfers: before.transfers.push(
                    HistoricTransfer {
                        from: address_index(known, record.from_address) as usize,
                        to: address_index(known, record.to_address) as usize,
                        gas_price: record.gas_price,
                        block_number: record.block_number,
                    },
                ),
                stopped: false,
            }
        }
    }
}

/// Whether every transfer is between two of the first `user_count` users.
pub open spec fn transfers_are_between(transfers: Seq<HistoricTransfer>, user_count: int) -> bool {
    forall|k: int|
        0 <= k < transfers.len() ==> (#[trigger] transfers[k]).from < user_count && transfers[k].to
            < user_count
}

/// The index points at `address`, and at no place before it does the
/// address stand.
pub proof fn lemma_address_index(addresses: Seq<Seq<char>>, address: Seq<char>)
    ensures
        0 <= address_index(addresses, address) <= addresses.len(),
        address_index(addresses, address) < addresses.len() ==> addresses[address_index(
            addresses,
            address,
        )] == address,
        forall|j: int| 0 <= j < address_index(addresses, address)
            ==> #[trigger] addresses[j] != address,
    decreases addresses.len(),
{
    if addresses.len() > 0 && addresses.first() != address {
        let rest = addresses.drop_first();
        lemma_address_index(rest, address);
        assert forall|j: int| 0 <= j < address_index(addresses, address)
            implies #[trigger] addresses[j]
            != address by {
            if j > 0 {
                assert(addresses[j] == rest[j - 1]);
            }
        }
        if address_index(addresses, address) < addresses.len() {
            assert(addresses[address_index(addresses, address)] == rest[address_index(
                rest,
                address,
            )]);
        }
    }
}

/// A place before which `address` does not stand, and which holds it or
/// is the end, is its index.
pub proof fn lemma_address_index_is(addresses: Seq<Seq<char>>, address: Seq<char>, k: int)
    requires
        0 <= k <= addresses.len(),
        forall|j: int| 0 <= j < k ==> #[trigger] addresses[j] != address,
        k < addresses.len() ==> addresses[k] == address,
    ensures
        address_index(addresses, address) == k,
{
    lemma_address_index(addresses, address);
    let found = address_index(addresses, address);
    if found < k {
        assert(addresses[found] != address);
    }
}

/// An address that becomes known keeps the places of those known before
/// it, and has a place itself.
pub proof fn lemma_with_address(addresses: Seq<Seq<char>>, address: Seq<char>, other: Seq<char>)
    ensures
        address_index(with_address(addresses, address), address) < with_address(
            addresses,
            address,
        ).len(),
        addresses.len() <= with_address(addresses, address).len() <= addresses.len() + 1,
        address_index(with_address(addresses, address), address) == address_index(
            addresses,
            address,
        ),
        address_index(addresses, other) < addresses.len() ==> address_index(
            with_address(addresses, address),
            other,
        ) == address_index(addresses, other),
{
    lemma_address_index(addresses, address);
    lemma_address_index(addresses, other);
    let known = with_address(addresses, address);
    let at = address_index(addresses, address);
    if at < addresses.len() {
    } else {
        assert forall|j: int| 0 <= j < addresses.len() implies #[trigger] known[j] != address by {
            assert(known[j] == addresses[j]);
        }
        lemma_address_index_is(known, address, addresses.len() as int);
        let there = address_index(addresses, other);
        if there < addresses.len() {
            assert forall|j: int| 0 <= j < there implies #[trigger] known[j] != other by {
                assert(known[j] == addresses[j]);
            }
            assert(known[there] == addresses[there]);
            lemma_address_index_is(known, other, there);
        }
    }
}

/// The place of `address` among `addresses`, where it is made known if it
/// is new.
fn intern(addresses: &mut Vec<String>, address: &String) -> (index: usize)
    ensures
        texts_view(final(addresses)@) == with_address(texts_view(old(addresses)@), address@),
        index == address_index(texts_view(old(addresses)@), address@),
        index < final(addresses).len(),
{
    let ghost known = texts_view(addresses@);
    let mut k: usize = 0;
    while k < addresses.len()
        invariant
            k <= addresses.len(),
            known == texts_view(addresses@),
            addresses@ == old(addresses)@,
            forall|j: int| 0 <= j < k ==> #[trigger] known[j] != address@,
        decreases addresses.len() - k,
    {
        if addresses[k] == *address {
            proof {
                assert(known[k as int] == addresses[k as int]@);
                lemma_address_index_is(known, address@, k as int);
            }
            return k;
        }
        proof {
            assert(known[k as int] == addresses[k as int]@);
        }
        k = k + 1;
    }
    proof {
        lemma_address_index_is(known, address@, k as int);
        assert(texts_view(addresses@.push(*address)) =~= known.push(address@));
    }
    addresses.push(address.clone());
    k
}

/// Takes in a table of historic transactions, for a graph of about
/// `user_num` users: gives the addresses in the order in which they came
/// up, and the transfers between them.
pub fn read_history(user_num: usize, records: &Vec<TransactionRecord>) -> (taken: (
    Vec<String>,
    Vec<HistoricTransfer>,
))
    ensures
        texts_view(taken.0@) == intake(records_view(records@), user_num as int).addresses,
        taken.1@ == intake(records_view(records@), user_num as int).transfers,
        transfers_are_between(taken.1@, taken.0.len() as int),
        taken.0.len() <= user_num + 1,
{
    let ghost listed = records_view(records@);
    let mut addresses: Vec<String> = Vec::new();
    let mut transfers: Vec<HistoricTransfer> = Vec::new();
    let mut stopped = false;
    let mut i: usize = 0;
    proof {
        assert(listed.take(0) =~= Seq::empty());
        assert(texts_view(addresses@) =~= Seq::empty());
    }
    while i < records.len() && !stopped
        invariant
            i <= records.len(),
            listed == records_view(records@),
            texts_view(addresses@) == intake(listed.take(i as int), user_num as int).addresses,
            transfers@ == intake(listed.take(i as int), user_num as int).transfers,
            stopped == intake(listed.take(i as int), user_num as int).stopped,
            transfers_are_between(transfers@, addresses.len() as int),
            addresses.len() <= user_num + 1,
            stopped ==> intake(listed, user_num as int) == intake(
                listed.take(i as int),
                user_num as int,
            ),
        decreases records.len() - i, if stopped { 0int } else { 1int },
    {
        let record = &records[i];
        proof {
            assert(listed.take(i + 1).drop_last() =~= listed.take(i as int));
            assert(listed.take(i + 1).last() == record@);
        }
        if record.receipt_status != 0 {
            if addresses.len() >= user_num {
                stopped = true;
                proof {
                    lemma_stopped_intake(listed, user_num as int, i + 1);
                }
            } else {
                let ghost before = texts_view(addresses@);
                let from = intern(&mut addresses, &record.from_address);
                let ghost between = texts_view(addresses@);
                let to = intern(&mut addresses, &record.to_address);
                proof {
                    lemma_with_address(before, record.from_address@, record.from_address@);
                    lemma_with_address(between, record.to_address@, record.from_address@);
                    lemma_with_address(between, record.to_address@, record.to_address@);
                    let known = texts_view(addresses@);
                    assert(from == address_index(known, record.from_address@));
                    assert(to == address_index(known, record.to_address@));
                    assert forall|k: int| 0 <= k < transfers.len() implies (
                    #[trigger] transfers[k]).from < addresses.len() && transfers[k].to
                        < addresses.len() by {}
                }
                transfers.push(
                    HistoricTransfer {
                        from,
                        to,
                        gas_price: record.gas_price,
                        block_number: record.block_number,
                    },
                );
            }
        }
        i = i + 1;
    }
    proof {
        if !stopped {
            assert(listed.take(i as int) =~= listed);
        }
    }
    (addresses, transfers)
}

/// Once the intake has stopped, more rows change nothing.
pub proof fn lemma_stopped_intake(records: Seq<TransactionRecordView>, user_num: int, upto: int)
    requires
        0 <= upto <= records.len(),
        intake(records.take(upto), user_num).stopped,
    ensures
        intake(records, user_num) == intake(records.take(upto), user_num),
    decreases records.len(),
{
    if upto == records.len() {
        assert(records.take(upto) =~= records);
    } else {
        assert(records.drop_last().take(upto) =~= records.take(upto));
        lemma_stopped_intake(records.drop_last(), user_num, upto);
    }
}

/// The transfers to one target, taken together: their number, and the
/// sum of their gas prices.
#[derive(Clone, Copy, Debug)]
pub struct Tally {
    pub to: Address,
    pub cnt: u64,
    pub gas_price: u128,
}

/// The place of the tally for `to` in `row`, or the length of `row` where
/// there is none.
pub open spec fn tally_index(row: Seq<Tally>, to: Address) -> int
    decreases row.len(),
{
    if row.len() == 0 {
        0
    } else if row.first().to == to {
        0
    } else {
        1 + tally_index(row.drop_first(), to)
    }
}

/// The row with `transfer` counted in: in the tally for its target, or in
/// a new tally at the end where there was none.
pub open spec fn row_tallied(row: Seq<Tally>, transfer: HistoricTransfer) -> Seq<Tally> {
    let at = tally_index(row, transfer.to);
    if at < row.len() {
        row.update(
            at,
            Tally {
                to: transfer.to,
                cnt: (row[at].cnt + 1) as u64,
                gas_price: (row[at].gas_price + transfer.gas_price) as u128,
            },
        )
    } else {
        row.push(Tally { to: transfer.to, cnt: 1, gas_price: transfer.gas_price as u128 })
    }
}

/// For each of `user_count` users the tallies of its transfers, one for
/// each target, in the order in which the targets came up.
pub open spec fn tallied(user_count: nat, transfers: Seq<HistoricTransfer>) -> Seq<Seq<Tally>>
    decreases transfers.len(),
{
    if transfers.len() == 0 {
        Seq::new(user_count, |i: int| Seq::empty())
    } else {
        let before = tallied(user_count, transfers.drop_last());
        let transfer = transfers.last();
        before.update(transfer.from as int, row_tallied(before[transfer.from as int], transfer))
    }
}

/// The edge that stands for a tally of the user `from`: its fee cap is
/// the mean gas price of the transfers, and its probability their share
/// of all `total` transfers.
pub open spec fn tally_edge(from: Address, tally: Tally, total: int) -> UserGraphEdge {
    UserGraphEdge {
        from,
        to: tally.to,
        fee_cap: (tally.gas_price as int / tally.cnt as int) as u128,
        transfer_probability_in_slot: normalized_probability(tally.cnt as int,
            total) as Probability,
    }
}

/// The graph with an edge for each tally of `row`, laid in order.
pub open spec fn with_tallies(graph: UserGraphView, from: Address, row: Seq<Tally>, total: int)
    -> UserGraphView
    decreases row.len(),
{
    if row.len() == 0 {
        graph
    } else {
        with_tallies(graph, from, row.drop_last(), total).with_edge(
            tally_edge(from, row.last(), total),
        )
    }
}

/// The graph with an edge for each tally of the users below `upto`.
pub open spec fn with_tally_rows(
    graph: UserGraphView,
    rows: Seq<Seq<Tally>>,
    upto: int,
    total: int,
) -> UserGraphView
    decreases upto,
{
    if upto <= 0 {
        graph
    } else {
        with_tallies(
            with_tally_rows(graph, rows, upto - 1, total),
            (upto - 1) as usize,
            rows[upto - 1],
            total,
        )
    }
}

/// The graph of `user_count` users that stands for `transfers`.
pub open spec fn history_graph(user_count: nat, transfers: Seq<HistoricTransfer>) -> UserGraphView {
    with_tally_rows(
        UserGraphView::with_nodes(user_count),
        tallied(user_count, transfers),
        user_count as int,
        transfers.len() as int,
    )
}

/// Whether the graph that stands for `transfers` can be laid: no user has
/// more targets than a row of edges has room for.
pub open spec fn history_fits(user_count: nat, transfers: Seq<HistoricTransfer>) -> bool {
    forall|from: int|
        0 <= from < user_count ==> (#[trigger] tallied(user_count, transfers)[from]).len()
            <= EDGE_LIMIT
}

/// Whether the tallies are sound for `count` transfers among `user_count`
/// users: each has a user for its target, counts at least one transfer
/// and at most all, and sums no more than its transfers can have had.
pub open spec fn tallies_are_sound(rows: Seq<Seq<Tally>>, user_count: int, count: int) -> bool {
    &&& rows.len() == user_count
    &&& forall|r: int, k: int|
        0 <= r < rows.len() && 0 <= k < rows[r].len() ==> {
            let tally = #[trigger] rows[r][k];
            &&& tally.to < user_count
            &&& 1 <= tally.cnt <= count
            &&& tally.gas_price <= tally.cnt * u64::MAX
        }
}

/// The index points at the tally for `to`, and before it no tally is for
/// that target.
pub proof fn lemma_tally_index(row: Seq<Tally>, to: Address)
    ensures
        0 <= tally_index(row, to) <= row.len(),
        tally_index(row, to) < row.len() ==> row[tally_index(row, to)].to == to,
        forall|j: int| 0 <= j < tally_index(row, to) ==> (#[trigger] row[j]).to != to,
    decreases row.len(),
{
    if row.len() > 0 && row.first().to != to {
        let rest = row.drop_first();
        lemma_tally_index(rest, to);
        assert forall|j: int| 0 <= j < tally_index(row, to) implies (#[trigger] row[j]).to
            != to by {
            if j > 0 {
                assert(row[j] == rest[j - 1]);
            }
        }
        if tally_index(row, to) < row.len() {
            assert(row[tally_index(row, to)] == rest[tally_index(rest, to)]);
        }
    }
}

/// A place before which no tally is for `to`, and which holds such a
/// tally or is the end of the row, is the index of `to`.
pub proof fn lemma_tally_index_is(row: Seq<Tally>, to: Address, k: int)
    requires
        0 <= k <= row.len(),
        forall|j: int| 0 <= j < k ==> (#[trigger] row[j]).to != to,
        k < row.len() ==> row[k].to == to,
    ensures
        tally_index(row, to) == k,
{
    lemma_tally_index(row, to);
    let found = tally_index(row, to);
    if found < k {
        assert(row[found].to != to);
    }
}

/// The tallies of the transfers of each user.
pub fn tally_transfers(user_count: usize, transfers: &Vec<HistoricTransfer>)
    -> (rows: Vec<Vec<Tally>>)
    requires
        transfers_are_between(transfers@, user_count as int),
    ensures
        tallies_view(rows@) == tallied(user_count as nat, transfers@),
        tallies_are_sound(tallies_view(rows@), user_count as int, transfers.len() as int),
{
    let mut rows: Vec<Vec<Tally>> = Vec::new();
    let mut r: usize = 0;
    while r < user_count
        invariant
            r <= user_count,
            rows.len() == r,
            forall|j: int| 0 <= j < r ==> (#[trigger] rows[j])@ == Seq::<Tally>::empty(),
        decreases user_count - r,
    {
        rows.push(Vec::new());
        r = r + 1;
    }
    let mut i: usize = 0;
    proof {
        assert(transfers@.take(0) =~= Seq::empty());
        assert(tallies_view(rows@) =~= tallied(user_count as nat, transfers@.take(0)));
    }
    while i < transfers.len()
        invariant
            i <= transfers.len(),
            transfers_are_between(transfers@, user_count as int),
            tallies_view(rows@) == tallied(user_count as nat, transfers@.take(i as int)),
            tallies_are_sound(tallies_view(rows@), user_count as int, i as int),
        decreases transfers.len() - i,
    {
        let transfer = transfers[i];
        let ghost before = tallies_view(rows@);
        let ghost row = before[transfer.from as int];
        proof {
            assert(transfers@.take(i + 1).drop_last() =~= transfers@.take(i as int));
            assert(transfers@.take(i + 1).last() == transfer);
            assert(row == rows[transfer.from as int]@);
        }
        let mut k: usize = 0;
        while k < rows[transfer.from].len() && rows[transfer.from][k].to != transfer.to
            invariant
                transfer.from < rows.len(),
                before == tallies_view(rows@),
                row == before[transfer.from as int],
                k <= row.len(),
                forall|j: int| 0 <= j < k ==> (#[trigger] row[j]).to != transfer.to,
            decreases row.len() - k,
        {
            k = k + 1;
        }
        proof {
            lemma_tally_index_is(row, transfer.to, k as int);
        }
        if k < rows[transfer.from].len() {
            let tally = rows[transfer.from][k];
            proof {
                assert(tally == before[transfer.from as int][k as int]);
            }
            rows[transfer.from][k] = Tally {
                to: transfer.to,
                cnt: tally.cnt + 1,
                gas_price: tally.gas_price + transfer.gas_price as u128,
            };
        } else {
            rows[transfer.from].push(
                Tally { to: transfer.to, cnt: 1, gas_price: transfer.gas_price as u128 },
            );
        }
        proof {
            let after = tallies_view(rows@);
            assert(after =~= before.update(transfer.from as int, row_tallied(row, transfer)));
            assert forall|r: int, c: int| 0 <= r < after.len() && 0 <= c < after[r].len() implies {
                let tally = #[trigger] after[r][c];
                &&& tally.to < user_count
                &&& 1 <= tally.cnt <= i + 1
                &&& tally.gas_price <= tally.cnt * u64::MAX
            } by {
                if r == transfer.from && c == k {
                } else {
                    assert(after[r][c] == before[r][c]);
                }
            }
        }
        i = i + 1;
    }
    proof {
        assert(transfers@.take(i as int) =~= transfers@);
    }
    rows
}

/// The views of rows of tallies.
pub open spec fn tallies_view(rows: Seq<Vec<Tally>>) -> Seq<Seq<Tally>> {
    rows.map_values(|row: Vec<Tally>| row@)
}

/// The block numbers of the transfers.
pub open spec fn block_numbers(transfers: Seq<HistoricTransfer>) -> Set<u64> {
    transfers.map_values(|t: HistoricTransfer| t.block_number).to_set()
}

/// In how many blocks the transfers stood.
pub fn count_blocks(transfers: &Vec<HistoricTransfer>) -> (count: usize)
    ensures
        count == block_numbers(transfers@).len(),
{
    broadcast use vstd::std_specs::hash::group_hash_axioms;

    let mut block_number_set: HashSet<u64> = HashSet::new();
    let mut i: usize = 0;
    proof {
        assert(transfers@.take(0) =~= Seq::empty());
        assert(block_numbers(transfers@.take(0)) =~= Set::empty());
    }
    while i < transfers.len()
        invariant
            i <= transfers.len(),
            block_number_set@ == block_numbers(transfers@.take(i as int)),
        decreases transfers.len() - i,
    {
        proof {
            let numbers = transfers@.map_values(|t: HistoricTransfer| t.block_number);
            assert(transfers@.take(i + 1).map_values(|t: HistoricTransfer| t.block_number)
                =~= transfers@.take(i as int).map_values(
                |t: HistoricTransfer| t.block_number,
            ).push(transfers[i as int].block_number));
            vstd::seq_lib::seq_to_set_is_finite(
                transfers@.take(i as int).map_values(|t: HistoricTransfer| t.block_number),
            );
            assert(block_numbers(transfers@.take(i + 1)) =~= block_numbers(
                transfers@.take(i as int),
            ).insert(transfers[i as int].block_number)) by {
                let shorter = transfers@.take(i as int).map_values(
                    |t: HistoricTransfer| t.block_number,
                );
                let longer = shorter.push(transfers[i as int].block_number);
                assert forall|x: u64| longer.to_set().contains(x) <==> shorter.to_set().insert(
                    transfers[i as int].block_number,
                ).contains(x) by {
                    if longer.contains(x) {
                        let j = choose|j: int| 0 <= j < longer.len() && longer[j] == x;
                        if j < shorter.len() {
                            assert(shorter[j] == x);
                        }
                    }
                    if shorter.contains(x) {
                        let j = choose|j: int| 0 <= j < shorter.len() && shorter[j] == x;
                        assert(longer[j] == x);
                    }
                    assert(longer[longer.len() - 1] == transfers[i as int].block_number);
                }
            }
        }
        block_number_set.insert(transfers[i].block_number);
        i = i + 1;
    }
    proof {
        assert(transfers@.take(i as int) =~= transfers@);
    }
    block_number_set.len()
}

/// A user graph made from historic transactions, and what is known of
/// the history: the addresses of the users in the order of their nodes,
/// how many transactions were taken in, and in how many blocks they stood.
pub struct HistoricGraph {
    pub user_graph: UserGraph,
    pub addresses: Vec<String>,
    pub number_of_transactions: usize,
    pub number_of_blocks: usize,
}

/// The mean of the gas prices of a sound tally is a gas price again.
proof fn lemma_mean_gas_price(gas_price: int, cnt: int)
    requires
        1 <= cnt,
        0 <= gas_price <= cnt * u64::MAX,
    ensures
        0 <= gas_price / cnt <= u64::MAX,
{
    vstd::arithmetic::div_mod::lemma_div_is_ordered(gas_price, cnt * u64::MAX, cnt);
    assert(cnt * u64::MAX == u64::MAX * cnt) by (nonlinear_arith);
    vstd::arithmetic::div_mod::lemma_div_multiples_vanish(u64::MAX as int, cnt);
    vstd::arithmetic::div_mod::lemma_div_is_ordered(0, gas_price, cnt);
}

impl UserGraph {
    /// The graph of `user_count` users that stands for `transfers`:
    /// between each two users that transferred there is an edge, whose
    /// fee cap is the mean gas price of their transfers and whose
    /// probability is the share of their transfers in all. Nothing if a
    /// user has more targets than a row of edges has room for.
    pub fn from_transfers(user_count: usize, transfers: &Vec<HistoricTransfer>) -> (graph: Option<
        UserGraph,
    >)
        requires
            transfers_are_between(transfers@, user_count as int),
        ensures
            graph is Some <==> history_fits(user_count as nat, transfers@),
            graph matches Some(laid) ==> laid@ == history_graph(user_count as nat, transfers@)
                && laid.wf(),
    {
        let rows = tally_transfers(user_count, transfers);
        let ghost tallies = tallies_view(rows@);
        let total = transfers.len();
        let mut r: usize = 0;
        while r < user_count
            invariant
                r <= user_count,
                rows.len() == user_count,
                tallies == tallies_view(rows@),
                tallies == tallied(user_count as nat, transfers@),
                forall|j: int| 0 <= j < r ==> (#[trigger] tallies[j]).len() <= EDGE_LIMIT,
            decreases user_count - r,
        {
            if rows[r].len() > EDGE_LIMIT {
                proof {
                    assert(tallies[r as int] == rows[r as int]@);
                }
                return None;
            }
            proof {
                assert(tallies[r as int] == rows[r as int]@);
            }
            r = r + 1;
        }
        let mut graph = UserGraph::with_nodes(user_count);
        let ghost base = graph@;
        let ghost bounded = |edge: UserGraphEdge| edge.transfer_probability_in_slot
            <= MAX_PROBABILITY;
        let mut from: usize = 0;
        while from < user_count
            invariant
                from <= user_count,
                rows.len() == user_count,
                total == transfers.len(),
                tallies == tallies_view(rows@),
                tallies_are_sound(tallies, user_count as int, total as int),
                forall|j: int| 0 <= j < user_count ==> (#[trigger] tallies[j]).len() <= EDGE_LIMIT,
                bounded == |edge: UserGraphEdge| edge.transfer_probability_in_slot
                    <= MAX_PROBABILITY,
                graph@ == with_tally_rows(base, tallies, from as int, total as int),
                graph.laid_out(),
                every_edge(graph@, bounded),
                graph@.nodes.len() == user_count,
                forall|j: int|
                    from <= j < graph@.edges.len() ==> (#[trigger] graph@.edges[j]).len() == 0,
                forall|j: int|
                    0 <= j < graph@.nodes.len() ==> (#[trigger] graph@.nodes[j]).in_degree <= from
                        * EDGE_LIMIT && graph@.nodes[j].out_degree <= from * EDGE_LIMIT,
            decreases user_count - from,
        {
            let ghost row = tallies[from as int];
            let ghost started = graph@;
            let mut j: usize = 0;
            proof {
                assert(row == rows[from as int]@);
                assert(row.take(0) =~= Seq::empty());
            }
            while j < rows[from].len()
                invariant
                    j <= row.len() <= EDGE_LIMIT,
                    from < user_count,
                    rows.len() == user_count,
                    total == transfers.len(),
                    tallies == tallies_view(rows@),
                    row == tallies[from as int],
                    row == rows[from as int]@,
                    tallies_are_sound(tallies, user_count as int, total as int),
                    bounded == |edge: UserGraphEdge| edge.transfer_probability_in_slot
                        <= MAX_PROBABILITY,
                    graph@ == with_tallies(started, from, row.take(j as int), total as int),
                    graph.laid_out(),
                    every_edge(graph@, bounded),
                    graph@.nodes.len() == user_count,
                    graph@.edges[from as int].len() <= j,
                    forall|r: int|
                        from < r < graph@.edges.len() ==> (#[trigger] graph@.edges[r]).len() == 0,
                    forall|r: int|
                        0 <= r < graph@.nodes.len() ==> (#[trigger] graph@.nodes[r]).in_degree
                            <= from * EDGE_LIMIT + j && graph@.nodes[r].out_degree <= from
                            * EDGE_LIMIT + j,
                decreases row.len() - j,
            {
                let tally = rows[from][j];
                let ghost before = graph@;
                proof {
                    assert(tally == tallies[from as int][j as int]);
                    assert(row.take(j + 1).drop_last() =~= row.take(j as int));
                    assert(row.take(j + 1).last() == tally);
                    lemma_mean_gas_price(tally.gas_price as int, tally.cnt as int);
                    assert(from * EDGE_LIMIT + j < 0x1_0000_0000_0000_0000 * 0x10_0000)
                        by (nonlinear_arith)
                        requires
                            from < 0x1_0000_0000_0000_0000,
                            j < EDGE_LIMIT,
                            EDGE_LIMIT == 65_536,
                    ;
                }
                let edge = UserGraphEdge::new(
                    from,
                    tally.to,
                    tally.gas_price / (tally.cnt as u128),
                    normalize(tally.cnt, total as u128),
                );
                proof {
                    assert(edge == tally_edge(from, tally, total as int));
                    assert(before.takes(edge));
                    lemma_with_edge_keeps(before, edge, bounded);
                    lemma_row_with(before.edges[from as int], edge);
                }
                graph.insert_edge(edge);
                proof {
                    assert forall|r: int| 0 <= r < graph@.edges.len() && r != from implies (
                    #[trigger] graph@.edges[r]) == before.edges[r] by {}
                    assert forall|r: int| 0 <= r < graph@.nodes.len() implies (
                    #[trigger] graph@.nodes[r]).in_degree <= from * EDGE_LIMIT + j + 1
                        && graph@.nodes[r].out_degree <= from * EDGE_LIMIT + j + 1 by {
                        assert(before.nodes[r].in_degree <= from * EDGE_LIMIT + j);
                    }
                }
                j = j + 1;
            }
            proof {
                assert(row.take(j as int) =~= row);
                assert((from + 1) * EDGE_LIMIT == from * EDGE_LIMIT + EDGE_LIMIT)
                    by (nonlinear_arith);
            }
            from = from + 1;
        }
        Some(graph)
    }

    /// The user graph that stands for a table of historic transactions,
    /// for about `user_num` users, with what is known of the history.
    /// Nothing if a user has more targets than a row of edges has room
    /// for.
    pub fn new_from_eth1_data(user_num: usize, records: &Vec<TransactionRecord>)
        -> (history: Option<
        HistoricGraph,
    >)
        ensures
            history is Some <==> history_fits(
                intake(records_view(records@), user_num as int).addresses.len(),
                intake(records_view(records@), user_num as int).transfers,
            ),
            history matches Some(made) ==> {
                let taken = intake(records_view(records@), user_num as int);
                &&& made.user_graph@ == history_graph(taken.addresses.len(), taken.transfers)
                &&& made.user_graph.wf()
                &&& texts_view(made.addresses@) == taken.addresses
                &&& made.number_of_transactions == taken.transfers.len()
                &&& made.number_of_blocks == block_numbers(taken.transfers).len()
            },
    {
        let (addresses, transfers) = read_history(user_num, records);
        let number_of_blocks = count_blocks(&transfers);
        let number_of_transactions = transfers.len();
        match UserGraph::from_transfers(addresses.len(), &transfers) {
            None => None,
            Some(user_graph) => Some(
                HistoricGraph { user_graph, addresses, number_of_transactions, number_of_blocks },
            ),
        }
    }
}

} // verus!
