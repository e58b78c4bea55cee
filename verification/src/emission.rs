use crate::custom_types::{Address, GasPrice, Nonce, Slot, TransactionHash};
use crate::decimal::{decimal, decimal_string};
use crate::function::{Function, FunctionType, FunctionView};
use crate::mempool::{entries_view, EntryView};
use crate::parameters::{
    AVERAGE_SHARD_SWITCHING_INTERVAL, DEFAULT_GAS_PREMIUM, DUMMY_NONCE, GAS_APPLY_CROSS_TRANSFER,
    GAS_CREATE_CROSS_TRANSFER, GAS_TRANSFER, INITIAL_SETUP_SLOTS, SHARD_NUM,
};
use crate::probability::{draw_exceeds, draw_is_above};
use crate::receipt::Receipt;
use crate::sharded_blockchain::{ShardedBlockchain, ShardedBlockchainView};
use crate::strategy::Decision;
use crate::transaction::{transaction_hash, Transaction, TransactionAndReceipt, TransactionView};
use crate::user::{queue_view, queued_view, User, UserView};
use crate::user_graph::{UserGraphEdge, FEE_CAP_LIMIT};
use vstd::prelude::*;

verus! {

/// What a user emits in a step: the user afterwards, and the transactions
/// to broadcast.
pub struct Emission {
    pub user: UserView,
    pub transactions: Seq<EntryView>,
}

/// The transaction of one function that a user makes.
pub open spec fn user_transaction(
    from: Address,
    to: Address,
    shard_id: usize,
    function: FunctionView,
    fee_cap: GasPrice,
    nonce: Nonce,
) -> TransactionView {
    TransactionView {
        from,
        to,
        shard_id,
        nonce,
        functions: seq![function],
        gas_premium: DEFAULT_GAS_PREMIUM,
        fee_cap,
        gas_limit: u128::MAX,
        hash: transaction_hash(from, shard_id, nonce),
    }
}

/// Whether every transaction may enter the mempool of the shard that it
/// is meant for.
pub open spec fn can_be_broadcast(transactions: Seq<EntryView>) -> bool {
    forall|k: int|
        0 <= k < transactions.len() ==> (#[trigger] transactions[k]).0.shard_id < SHARD_NUM
            && transactions[k].0.nonce < usize::MAX
}

/// Makes the transaction of one function.
pub fn build_transaction(
    from: Address,
    to: Address,
    shard_id: usize,
    source: Address,
    target: Address,
    ftype: FunctionType,
    calldata: String,
    fee_cap: GasPrice,
    nonce: Nonce,
) -> (transaction: Transaction)
    ensures
        transaction@ == user_transaction(
            from,
            to,
            shard_id,
            FunctionView { source, target, ftype, calldata: calldata@ },
            fee_cap,
            nonce,
        ),
{
    let mut functions: Vec<Function> = Vec::new();
    functions.push(Function { source, target, ftype, calldata });
    proof {
        assert(crate::transaction::functions_view(functions@) =~= seq![
            FunctionView { source, target, ftype, calldata: calldata@ },
        ]);
    }
    Transaction::new(from, to, shard_id, functions, DEFAULT_GAS_PREMIUM, fee_cap, nonce)
}

impl UserView {
    /// What the user does about the head of its queue for `shard_id`. It
    /// acts only while nothing of it is under way there. A head whose fee
    /// cap is not above the base fee stays. Else the head leaves the
    /// queue and gets the nonce of the user for the shard; it is sent with
    /// the receipt of the transaction that it awaits, taken from the
    /// shard with which the account of the user is stamped, if that
    /// receipt is there and tells of a success; else it is dropped.
    pub open spec fn drain_shard(self, chain: ShardedBlockchainView, shard_id: int) -> Emission {
        let queue = self.unsent_transactions_in_shard[shard_id];
        if self.is_busy_on(shard_id) || queue.len() == 0 || queue.first().0.fee_cap
            <= chain.shards[shard_id].base_fee() {
            Emission { user: self, transactions: Seq::empty() }
        } else {
            let (queued, awaited) = queue.first();
            let popped = UserView {
                unsent_transactions_in_shard: self.unsent_transactions_in_shard.update(
                    shard_id,
                    queue.drop_first(),
                ),
                ..self
            };
            let transaction = TransactionView { nonce: self.nonce_in_shard[shard_id], ..queued };
            match chain.get_account(self.account_addr).1 {
                None => Emission { user: popped, transactions: Seq::empty() },
                Some(account) => {
                    let receipts = chain.shards[account.shard_id as int].receipts;
                    if receipts.contains_key(awaited) && receipts[awaited].status {
                        let entry = (transaction, Some(receipts[awaited]));
                        Emission {
                            user: popped.after_sending(shard_id, chain.slot, entry),
                            transactions: seq![entry],
                        }
                    } else {
                        Emission { user: popped, transactions: Seq::empty() }
                    }
                },
            }
        }
    }

    /// What the user does about its queues for the shards below `upto`,
    /// in the order of the shards.
    pub open spec fn drain(self, chain: ShardedBlockchainView, upto: int) -> Emission
        decreases upto,
    {
        if upto <= 0 {
            Emission { user: self, transactions: Seq::empty() }
        } else {
            let before = self.drain(chain, upto - 1);
            let step = before.user.drain_shard(chain, upto - 1);
            Emission { user: step.user, transactions: before.transactions + step.transactions }
        }
    }

    /// Whether the user can act on the chain: both are well formed, the
    /// index knows the account of the user, and the nonces of the user
    /// are within what the slot of the chain allows.
    pub open spec fn can_act_on(self, chain: ShardedBlockchainView) -> bool {
        &&& self.wf()
        &&& chain.wf()
        &&& chain.slot < usize::MAX
        &&& chain.addr_to_shard_id.contains_key(self.account_addr)
        &&& self.nonces_within(chain.slot, true)
    }
}

/// Whether a user tries to move in the slot `slot`, for the number `draw`:
/// once in `AVERAGE_SHARD_SWITCHING_INTERVAL` slots on average, and not
/// before the chain has settled.
pub open spec fn movement_is_due(draw: u32, slot: Slot) -> bool {
    draw <= u32::MAX / (AVERAGE_SHARD_SWITCHING_INTERVAL as u32) && slot > INITIAL_SETUP_SLOTS
}

/// The fee cap of each leg of a transfer to another shard, for an edge
/// with the fee cap `fee_cap`: both legs together are to cost what one
/// transfer inside a shard costs at `fee_cap`.
pub open spec fn cross_shard_fee_cap(fee_cap: GasPrice) -> GasPrice {
    (fee_cap * GAS_TRANSFER / (GAS_CREATE_CROSS_TRANSFER + GAS_APPLY_CROSS_TRANSFER)) as GasPrice
}

/// The function of a user that carries no call data.
pub open spec fn plain_function(source: Address, target: Address, ftype: FunctionType)
    -> FunctionView {
    FunctionView { source, target, ftype, calldata: Seq::empty() }
}

impl UserView {
    /// The user and no transaction.
    pub open spec fn idle(self) -> Emission {
        Emission { user: self, transactions: Seq::empty() }
    }

    /// What the user emits when it sends `sent` to `shard_f` and queues
    /// `queued` for `shard_t` behind it.
    pub open spec fn send_and_queue(
        self,
        chain: ShardedBlockchainView,
        shard_f: int,
        sent: TransactionView,
        shard_t: int,
        queued: TransactionView,
    ) -> Emission {
        Emission {
            user: self.after_sending(shard_f, chain.slot, (sent, None)).after_queueing(
                shard_t,
                queued,
                sent.hash,
            ),
            transactions: seq![(sent, None)],
        }
    }

    /// What the user does about moving to the shard that it decided for.
    /// It moves only where a move is due, the decision names another
    /// shard with a fee cap above the base fee of both shards, and nothing
    /// of the user is under way on either. Then the first half of the move
    /// is sent to the shard that the user lives on, and the second half is
    /// queued for the other shard.
    pub open spec fn move_out(self, chain: ShardedBlockchainView, decision: Decision, draw: u32)
        -> Emission {
        let from = self.account_addr;
        let shard_f = chain.addr_to_shard_id[from] as int;
        let shard_t = decision.0 as int;
        if !movement_is_due(draw, chain.slot) || decision.1 is None || shard_f == shard_t
            || self.is_busy_on(shard_f) || self.is_busy_on(shard_t) || decision.1->Some_0
            <= chain.shards[shard_f].base_fee() || decision.1->Some_0
            <= chain.shards[shard_t].base_fee() {
            self.idle()
        } else {
            let fee_cap = decision.1->Some_0;
            self.send_and_queue(
                chain,
                shard_f,
                user_transaction(
                    from,
                    from,
                    shard_f as usize,
                    plain_function(from, from, FunctionType::CreateCrossTransferAll),
                    fee_cap,
                    self.nonce_in_shard[shard_f],
                ),
                shard_t,
                user_transaction(
                    from,
                    from,
                    shard_t as usize,
                    FunctionView {
                        source: from,
                        target: from,
                        ftype: FunctionType::ApplyCrossTransferAll,
                        calldata: decimal(shard_f as nat),
                    },
                    fee_cap,
                    DUMMY_NONCE,
                ),
            )
        }
    }

    /// What the user does about a transfer along `edge`, for the number
    /// `draw`. There is none where the draw is above the probability of
    /// the edge, or something of the user is under way on its shard or on
    /// that of the target. Inside a shard one transfer is sent, with the
    /// fee cap of the edge, if that is above the base fee. To another
    /// shard the first leg is sent and the second is queued for the shard
    /// of the target, both with the fee cap for a leg, if that is above
    /// the base fee of both shards.
    pub open spec fn transfer_along(self, chain: ShardedBlockchainView, edge: UserGraphEdge,
        draw: u32)
        -> Emission {
        let from = self.account_addr;
        let to = edge.to;
        let shard_f = chain.addr_to_shard_id[from] as int;
        let shard_t = chain.addr_to_shard_id[to] as int;
        if draw_is_above(draw, edge.transfer_probability_in_slot) || self.is_busy_on(shard_f)
            || self.is_busy_on(shard_t) {
            self.idle()
        } else if shard_f == shard_t {
            if edge.fee_cap <= chain.shards[shard_f].base_fee() {
                self.idle()
            } else {
                let transaction = user_transaction(
                    from,
                    to,
                    shard_f as usize,
                    plain_function(from, to, FunctionType::Transfer),
                    edge.fee_cap,
                    self.nonce_in_shard[shard_f],
                );
                Emission {
                    user: self.after_sending(shard_f, chain.slot, (transaction, None)),
                    transactions: seq![(transaction, None)],
                }
            }
        } else {
            let fee_cap = cross_shard_fee_cap(edge.fee_cap);
            if fee_cap <= chain.shards[shard_f].base_fee() || fee_cap
                <= chain.shards[shard_t].base_fee() {
                self.idle()
            } else {
                self.send_and_queue(
                    chain,
                    shard_f,
                    user_transaction(
                        from,
                        to,
                        shard_f as usize,
                        plain_function(from, from, FunctionType::CreateCrossTransfer),
                        fee_cap,
                        self.nonce_in_shard[shard_f],
                    ),
                    shard_t,
                    user_transaction(
                        from,
                        to,
                        shard_t as usize,
                        plain_function(from, to, FunctionType::ApplyCrossTransfer),
                        fee_cap,
                        DUMMY_NONCE,
                    ),
                )
            }
        }
    }

    /// What the user does about the transfers along the edges of `row`,
    /// taken in the order `order`, each with its number of `draws`.
    pub open spec fn transfer_all(
        self,
        chain: ShardedBlockchainView,
        row: Seq<UserGraphEdge>,
        order: Seq<usize>,
        draws: Seq<u32>,
    ) -> Emission
        decreases order.len(),
    {
        if order.len() == 0 {
            self.idle()
        } else {
            let before = self.transfer_all(chain, row, order.drop_last(), draws.drop_last());
            let step = before.user.transfer_along(chain, row[order.last() as int], draws.last());
            Emission { user: step.user, transactions: before.transactions + step.transactions }
        }
    }
}

/// Transactions that can be broadcast, followed by more that can be, can
/// be broadcast.
pub proof fn lemma_can_be_broadcast_add(first: Seq<EntryView>, second: Seq<EntryView>)
    requires
        can_be_broadcast(first),
        can_be_broadcast(second),
    ensures
        can_be_broadcast(first + second),
{
    assert forall|k: int| 0 <= k < (first + second).len() implies (#[trigger] (first
        + second)[k]).0.shard_id < SHARD_NUM && (first + second)[k].0.nonce < usize::MAX by {
        if k < first.len() {
            assert((first + second)[k] == first[k]);
        } else {
            assert((first + second)[k] == second[k - first.len()]);
        }
    }
}

/// Sending a transaction to a shard on which nothing is under way keeps
/// the user able to act, and changes nothing but the list and the nonce
/// for that shard.
pub proof fn lemma_after_sending(
    user: UserView,
    chain: ShardedBlockchainView,
    shard_id: int,
    entry: EntryView,
)
    requires
        user.can_act_on(chain),
        0 <= shard_id < SHARD_NUM,
        !user.is_busy_on(shard_id),
        entry.0.shard_id == shard_id,
    ensures
        user.after_sending(shard_id, chain.slot, entry).can_act_on(chain),
        user.after_sending(shard_id, chain.slot, entry).is_busy_on(shard_id),
        forall|s: int|
            0 <= s < SHARD_NUM && s != shard_id ==> user.after_sending(
                shard_id,
                chain.slot,
                entry,
            ).is_busy_on(s) == user.is_busy_on(s),
{
    let after = user.after_sending(shard_id, chain.slot, entry);
    assert(user.nonce_in_shard[shard_id] <= chain.slot);
    assert forall|s: int, k: int|
        0 <= s < SHARD_NUM && 0 <= k < after.unconfirmed_transactions_in_shard[s].len() implies (
    #[trigger] after.unconfirmed_transactions_in_shard[s][k]).1.0.shard_id == s by {
        if s == shard_id && k == user.unconfirmed_transactions_in_shard[s].len() {
        } else {
            assert(after.unconfirmed_transactions_in_shard[s][k]
                == user.unconfirmed_transactions_in_shard[s][k]);
        }
    }
    assert forall|s: int| 0 <= s < SHARD_NUM implies (#[trigger] after.nonce_in_shard[s])
        <= chain.slot + if after.is_busy_on(s) {
        1int
    } else {
        0int
    } by {
        if s != shard_id {
            assert(after.nonce_in_shard[s] == user.nonce_in_shard[s]);
            assert(after.is_busy_on(s) == user.is_busy_on(s));
        }
    }
}

/// Queueing a transaction keeps the user able to act, and leaves what is
/// under way as it was.
pub proof fn lemma_after_queueing(
    user: UserView,
    chain: ShardedBlockchainView,
    shard_id: int,
    transaction: TransactionView,
    awaited: TransactionHash,
)
    requires
        user.can_act_on(chain),
        0 <= shard_id < SHARD_NUM,
        transaction.shard_id == shard_id,
    ensures
        user.after_queueing(shard_id, transaction, awaited).can_act_on(chain),
        user.after_queueing(shard_id, transaction, awaited).unconfirmed_transactions_in_shard
            == user.unconfirmed_transactions_in_shard,
{
    let after = user.after_queueing(shard_id, transaction, awaited);
    assert forall|s: int, k: int|
        0 <= s < SHARD_NUM && 0 <= k < after.unsent_transactions_in_shard[s].len() implies (
    #[trigger] after.unsent_transactions_in_shard[s][k]).0.shard_id == s by {
        if s == shard_id && k == user.unsent_transactions_in_shard[s].len() {
        } else {
            assert(after.unsent_transactions_in_shard[s][k]
                == user.unsent_transactions_in_shard[s][k]);
        }
    }
    assert forall|s: int| 0 <= s < SHARD_NUM implies (#[trigger] after.nonce_in_shard[s])
        <= chain.slot + if after.is_busy_on(s) {
        1int
    } else {
        0int
    } by {
        assert(after.is_busy_on(s) == user.is_busy_on(s));
    }
}

/// Taking the head off the queue for a shard keeps the user able to act,
/// and leaves what is under way as it was.
pub proof fn lemma_after_popping(user: UserView, chain: ShardedBlockchainView, shard_id: int)
    requires
        user.can_act_on(chain),
        0 <= shard_id < SHARD_NUM,
        user.unsent_transactions_in_shard[shard_id].len() > 0,
    ensures
        (UserView {
            unsent_transactions_in_shard: user.unsent_transactions_in_shard.update(
                shard_id,
                user.unsent_transactions_in_shard[shard_id].drop_first(),
            ),
            ..user
        }).can_act_on(chain),
{
    let after = UserView {
        unsent_transactions_in_shard: user.unsent_transactions_in_shard.update(
            shard_id,
            user.unsent_transactions_in_shard[shard_id].drop_first(),
        ),
        ..user
    };
    assert forall|s: int, k: int|
        0 <= s < SHARD_NUM && 0 <= k < after.unsent_transactions_in_shard[s].len() implies (
    #[trigger] after.unsent_transactions_in_shard[s][k]).0.shard_id == s by {
        if s == shard_id {
            assert(after.unsent_transactions_in_shard[s][k]
                == user.unsent_transactions_in_shard[s][k + 1]);
        } else {
            assert(after.unsent_transactions_in_shard[s][k]
                == user.unsent_transactions_in_shard[s][k]);
        }
    }
    assert forall|s: int| 0 <= s < SHARD_NUM implies (#[trigger] after.nonce_in_shard[s])
        <= chain.slot + if after.is_busy_on(s) {
        1int
    } else {
        0int
    } by {
        assert(after.is_busy_on(s) == user.is_busy_on(s));
    }
}

impl User {
    /// Acts on the head of the queue for `shard_id`, and gives the
    /// transaction to broadcast, if one is sent.
    pub fn take_pending(&mut self, chain: &ShardedBlockchain, shard_id: usize) -> (sent: Vec<
        TransactionAndReceipt,
    >)
        requires
            old(self)@.can_act_on(chain@),
            shard_id < SHARD_NUM,
        ensures
            final(self)@ == old(self)@.drain_shard(chain@, shard_id as int).user,
            entries_view(sent@) == old(self)@.drain_shard(chain@, shard_id as int).transactions,
            final(self)@.can_act_on(chain@),
            final(self)@.account_addr == old(self)@.account_addr,
            final(self)@.user_type == old(self)@.user_type,
            can_be_broadcast(entries_view(sent@)),
    {
        broadcast use vstd::std_specs::hash::group_hash_axioms;

        let ghost start = self@;
        let mut transactions: Vec<TransactionAndReceipt> = Vec::new();
        proof {
            assert(entries_view(transactions@) =~= Seq::empty());
            assert(chain@.shards[shard_id as int].wf());
        }
        if self.is_busy_on(shard_id) || self.unsent_transactions_in_shard[shard_id].len() == 0 {
            return transactions;
        }
        let ghost queue = self.unsent_transactions_in_shard[shard_id as int]@;
        proof {
            assert(start.unsent_transactions_in_shard[shard_id as int] == queue_view(queue));
            assert(queue_view(queue).first() == queued_view(queue[0]));
        }
        if self.unsent_transactions_in_shard[shard_id][0].0.fee_cap
            <= chain.shards[shard_id].get_base_fee() {
            return transactions;
        }
        let head = self.unsent_transactions_in_shard[shard_id].pop_front();
        let (mut transaction, prev_transaction_hash) = match head {
            Some(queued) => queued,
            None => vstd::pervasive::unreached(),
        };
        let ghost popped = self@;
        proof {
            assert(queue_view(queue.drop_first()) =~= queue_view(queue).drop_first());
            assert(popped.unsent_transactions_in_shard
                =~= start.unsent_transactions_in_shard.update(
                shard_id as int,
                start.unsent_transactions_in_shard[shard_id as int].drop_first(),
            ));
            assert(popped.unconfirmed_transactions_in_shard
                =~= start.unconfirmed_transactions_in_shard);
            lemma_after_popping(start, chain@, shard_id as int);
        }
        transaction.nonce = self.nonce_in_shard[shard_id];
        let (_, account) = chain.get_account(self.account_addr);
        let account_shard_id = match account {
            None => {
                return transactions;
            },
            Some(account) => account.shard_id,
        };
        proof {
            let shard = chain@.shards[chain@.addr_to_shard_id[self.account_addr] as int];
            assert(shard.wf());
            assert(account_shard_id < SHARD_NUM);
        }
        let receipt: Receipt = match chain.shards[account_shard_id].receipts.get(
            &prev_transaction_hash,
        ) {
            None => {
                return transactions;
            },
            Some(receipt) => {
                if !receipt.status {
                    return transactions;
                }
                receipt.clone()
            },
        };
        let copy = transaction.clone();
        let receipt_copy = receipt.clone();
        proof {
            let entry = (transaction@, Some(receipt@));
            lemma_after_sending(popped, chain@, shard_id as int, entry);
            assert(start.unsent_transactions_in_shard[shard_id as int][0].0.shard_id == shard_id);
            assert(start.nonce_in_shard[shard_id as int] <= chain.slot);
        }
        transactions.push((copy, Some(receipt_copy)));
        self.record_sent(shard_id, chain.slot, transaction, Some(receipt));
        proof {
            assert(entries_view(transactions@) =~= seq![(transaction@, Some(receipt@))]);
        }
        transactions
    }

    /// Acts on the heads of the queues for all shards, in the order of the
    /// shards, and gives the transactions to broadcast.
    pub fn take_all_pending(&mut self, chain: &ShardedBlockchain)
        -> (sent: Vec<TransactionAndReceipt>)
        requires
            old(self)@.can_act_on(chain@),
        ensures
            final(self)@ == old(self)@.drain(chain@, SHARD_NUM as int).user,
            entries_view(sent@) == old(self)@.drain(chain@, SHARD_NUM as int).transactions,
            final(self)@.can_act_on(chain@),
            final(self)@.account_addr == old(self)@.account_addr,
            final(self)@.user_type == old(self)@.user_type,
            can_be_broadcast(entries_view(sent@)),
    {
        let ghost start = self@;
        let mut transactions: Vec<TransactionAndReceipt> = Vec::new();
        let mut shard_id: usize = 0;
        proof {
            assert(entries_view(transactions@) =~= Seq::empty());
        }
        while shard_id < SHARD_NUM
            invariant
                shard_id <= SHARD_NUM,
                self@ == start.drain(chain@, shard_id as int).user,
                entries_view(transactions@) == start.drain(chain@, shard_id as int).transactions,
                self@.can_act_on(chain@),
                self@.account_addr == start.account_addr,
                self@.user_type == start.user_type,
                can_be_broadcast(entries_view(transactions@)),
            decreases SHARD_NUM - shard_id,
        {
            let mut sent = self.take_pending(chain, shard_id);
            proof {
                let before = entries_view(transactions@);
                let added = entries_view(sent@);
                assert(entries_view(transactions@ + sent@) =~= before + added);
                assert forall|k: int| 0 <= k < (before + added).len() implies (#[trigger] (before
                    + added)[k]).0.shard_id < SHARD_NUM && (before + added)[k].0.nonce
                    < usize::MAX by {
                    if k < before.len() {
                        assert((before + added)[k] == before[k]);
                    } else {
                        assert((before + added)[k] == added[k - before.len()]);
                    }
                }
            }
            transactions.append(&mut sent);
            shard_id = shard_id + 1;
        }
        transactions
    }

    /// Sends `sent` to `shard_f` and queues `queued` for `shard_t` behind
    /// it; gives the transaction to broadcast.
    fn send_with_follower(
        &mut self,
        chain: &ShardedBlockchain,
        shard_f: usize,
        sent: Transaction,
        shard_t: usize,
        queued: Transaction,
    ) -> (out: Vec<TransactionAndReceipt>)
        requires
            old(self)@.can_act_on(chain@),
            shard_f < SHARD_NUM,
            shard_t < SHARD_NUM,
            !old(self)@.is_busy_on(shard_f as int),
            sent.shard_id == shard_f,
            queued.shard_id == shard_t,
            sent.nonce == old(self)@.nonce_in_shard[shard_f as int],
        ensures
            final(self)@ == old(self)@.send_and_queue(
                chain@,
                shard_f as int,
                sent@,
                shard_t as int,
                queued@,
            ).user,
            entries_view(out@) == old(self)@.send_and_queue(
                chain@,
                shard_f as int,
                sent@,
                shard_t as int,
                queued@,
            ).transactions,
            final(self)@.can_act_on(chain@),
            final(self)@.account_addr == old(self)@.account_addr,
            final(self)@.user_type == old(self)@.user_type,
            can_be_broadcast(entries_view(out@)),
    {
        let ghost start = self@;
        proof {
            lemma_after_sending(start, chain@, shard_f as int, (sent@, None));
            lemma_after_queueing(
                start.after_sending(shard_f as int, chain.slot, (sent@, None)),
                chain@,
                shard_t as int,
                queued@,
                sent.hash,
            );
            assert(start.nonce_in_shard[shard_f as int] <= chain.slot);
        }
        let mut transactions: Vec<TransactionAndReceipt> = Vec::new();
        let hash = sent.hash;
        transactions.push((sent.clone(), None));
        self.record_sent(shard_f, chain.slot, sent, None);
        self.queue(shard_t, queued, hash);
        proof {
            assert(entries_view(transactions@) =~= seq![(sent@, None)]);
        }
        transactions
    }

    /// Acts on the decision for a shard to live on: sends the first half
    /// of the move and queues the second, where the user moves.
    pub fn emit_movement(&mut self, chain: &ShardedBlockchain, decision: Decision, draw: u32)
        -> (out:
        Vec<TransactionAndReceipt>)
        requires
            old(self)@.can_act_on(chain@),
            decision.0 < SHARD_NUM,
        ensures
            final(self)@ == old(self)@.move_out(chain@, decision, draw).user,
            entries_view(out@) == old(self)@.move_out(chain@, decision, draw).transactions,
            final(self)@.can_act_on(chain@),
            final(self)@.account_addr == old(self)@.account_addr,
            final(self)@.user_type == old(self)@.user_type,
            can_be_broadcast(entries_view(out@)),
    {
        broadcast use vstd::std_specs::hash::group_hash_axioms;

        let mut transactions: Vec<TransactionAndReceipt> = Vec::new();
        proof {
            assert(entries_view(transactions@) =~= Seq::empty());
        }
        if draw <= u32::MAX / (AVERAGE_SHARD_SWITCHING_INTERVAL as u32) && chain.slot
            > INITIAL_SETUP_SLOTS {
            let from = self.account_addr;
            let shard_f: usize = match chain.addr_to_shard_id.get(&from) {
                Some(id) => *id,
                None => vstd::pervasive::unreached(),
            };
            let (shard_t, fee_cap) = decision;
            let fee_cap = match fee_cap {
                None => {
                    return transactions;
                },
                Some(fee_cap) => fee_cap,
            };
            proof {
                assert(shard_f < SHARD_NUM);
                assert(chain@.shards[shard_f as int].wf());
                assert(chain@.shards[shard_t as int].wf());
            }
            if shard_f != shard_t && !self.is_busy_on(shard_f) && !self.is_busy_on(shard_t) {
                if fee_cap <= chain.shards[shard_f].get_base_fee() || fee_cap
                    <= chain.shards[shard_t].get_base_fee() {
                    return transactions;
                }
                let nonce = self.nonce_in_shard[shard_f];
                let create = build_transaction(
                    from,
                    from,
                    shard_f,
                    from,
                    from,
                    FunctionType::CreateCrossTransferAll,
                    String::new(),
                    fee_cap,
                    nonce,
                );
                let apply = build_transaction(
                    from,
                    from,
                    shard_t,
                    from,
                    from,
                    FunctionType::ApplyCrossTransferAll,
                    decimal_string(shard_f),
                    fee_cap,
                    DUMMY_NONCE,
                );
                return self.send_with_follower(chain, shard_f, create, shard_t, apply);
            }
        }
        transactions
    }

    /// Acts on the edge `edge` for the number `draw`: sends a transfer to
    /// its target, or its first leg, where there is to be one.
    pub fn emit_transfer(&mut self, chain: &ShardedBlockchain, edge: &UserGraphEdge, draw: u32)
        -> (out:
        Vec<TransactionAndReceipt>)
        requires
            old(self)@.can_act_on(chain@),
            chain@.addr_to_shard_id.contains_key(edge.to),
            edge.fee_cap <= FEE_CAP_LIMIT,
        ensures
            final(self)@ == old(self)@.transfer_along(chain@, *edge, draw).user,
            entries_view(out@) == old(self)@.transfer_along(chain@, *edge, draw).transactions,
            final(self)@.can_act_on(chain@),
            final(self)@.account_addr == old(self)@.account_addr,
            final(self)@.user_type == old(self)@.user_type,
            can_be_broadcast(entries_view(out@)),
    {
        broadcast use vstd::std_specs::hash::group_hash_axioms;

        let ghost start = self@;
        let mut transactions: Vec<TransactionAndReceipt> = Vec::new();
        proof {
            assert(entries_view(transactions@) =~= Seq::empty());
        }
        if draw_exceeds(draw, edge.transfer_probability_in_slot) {
            return transactions;
        }
        let from = self.account_addr;
        let to = edge.to;
        let shard_f: usize = match chain.addr_to_shard_id.get(&from) {
            Some(id) => *id,
            None => vstd::pervasive::unreached(),
        };
        let shard_t: usize = match chain.addr_to_shard_id.get(&to) {
            Some(id) => *id,
            None => vstd::pervasive::unreached(),
        };
        proof {
            assert(shard_f < SHARD_NUM);
            assert(shard_t < SHARD_NUM);
            assert(chain@.shards[shard_f as int].wf());
            assert(chain@.shards[shard_t as int].wf());
        }
        if self.is_busy_on(shard_f) || self.is_busy_on(shard_t) {
            return transactions;
        }
        if shard_f == shard_t {
            let fee_cap = edge.fee_cap;
            if fee_cap <= chain.shards[shard_f].get_base_fee() {
                return transactions;
            }
            let nonce = self.nonce_in_shard[shard_f];
            let transaction = build_transaction(
                from,
                to,
                shard_f,
                from,
                to,
                FunctionType::Transfer,
                String::new(),
                fee_cap,
                nonce,
            );
            proof {
                lemma_after_sending(start, chain@, shard_f as int, (transaction@, None));
                assert(start.nonce_in_shard[shard_f as int] <= chain.slot);
            }
            transactions.push((transaction.clone(), None));
            self.record_sent(shard_f, chain.slot, transaction, None);
            proof {
                assert(entries_view(transactions@) =~= seq![(transaction@, None)]);
            }
            transactions
        } else {
            let fee_cap = edge.fee_cap * GAS_TRANSFER / (GAS_CREATE_CROSS_TRANSFER
                + GAS_APPLY_CROSS_TRANSFER);
            if fee_cap <= chain.shards[shard_f].get_base_fee() || fee_cap
                <= chain.shards[shard_t].get_base_fee() {
                return transactions;
            }
            let nonce = self.nonce_in_shard[shard_f];
            let create = build_transaction(
                from,
                to,
                shard_f,
                from,
                from,
                FunctionType::CreateCrossTransfer,
                String::new(),
                fee_cap,
                nonce,
            );
            let apply = build_transaction(
                from,
                to,
                shard_t,
                from,
                to,
                FunctionType::ApplyCrossTransfer,
                String::new(),
                fee_cap,
                DUMMY_NONCE,
            );
            self.send_with_follower(chain, shard_f, create, shard_t, apply)
        }
    }

    /// Acts on the edges of `row`, taken in the order `order`, each with
    /// its number of `draws`; gives the transactions to broadcast.
    pub fn emit_transfers(
        &mut self,
        chain: &ShardedBlockchain,
        row: &Vec<UserGraphEdge>,
        order: &Vec<usize>,
        draws: &Vec<u32>,
    ) -> (out: Vec<TransactionAndReceipt>)
        requires
            old(self)@.can_act_on(chain@),
            order.len() == draws.len(),
            forall|k: int| 0 <= k < order.len() ==> (#[trigger] order[k]) < row.len(),
            forall|k: int|
                0 <= k < row.len() ==> chain@.addr_to_shard_id.contains_key((#[trigger] row[k]).to)
                    && row[k].fee_cap <= FEE_CAP_LIMIT,
        ensures
            final(self)@ == old(self)@.transfer_all(chain@, row@, order@, draws@).user,
            entries_view(out@)
                == old(self)@.transfer_all(chain@, row@, order@, draws@).transactions,
            final(self)@.can_act_on(chain@),
            final(self)@.account_addr == old(self)@.account_addr,
            final(self)@.user_type == old(self)@.user_type,
            can_be_broadcast(entries_view(out@)),
    {
        let ghost start = self@;
        let mut transactions: Vec<TransactionAndReceipt> = Vec::new();
        let mut k: usize = 0;
        proof {
            assert(entries_view(transactions@) =~= Seq::empty());
            assert(order@.take(0) =~= Seq::empty());
        }
        while k < order.len()
            invariant
                k <= order.len(),
                order.len() == draws.len(),
                forall|j: int| 0 <= j < order.len() ==> (#[trigger] order[j]) < row.len(),
                forall|j: int|
                    0 <= j < row.len() ==> chain@.addr_to_shard_id.contains_key(
                        (#[trigger] row[j]).to,
                    ) && row[j].fee_cap <= FEE_CAP_LIMIT,
                self@ == start.transfer_all(
                    chain@,
                    row@,
                    order@.take(k as int),
                    draws@.take(k as int),
                ).user,
                entries_view(transactions@) == start.transfer_all(
                    chain@,
                    row@,
                    order@.take(k as int),
                    draws@.take(k as int),
                ).transactions,
                self@.can_act_on(chain@),
                self@.account_addr == start.account_addr,
                self@.user_type == start.user_type,
                can_be_broadcast(entries_view(transactions@)),
            decreases order.len() - k,
        {
            proof {
                assert(order@.take(k + 1).drop_last() =~= order@.take(k as int));
                assert(draws@.take(k + 1).drop_last() =~= draws@.take(k as int));
                assert(order@.take(k + 1).last() == order@[k as int]);
                assert(draws@.take(k + 1).last() == draws@[k as int]);
                assert(order[k as int] < row.len());
            }
            let mut sent = self.emit_transfer(chain, &row[order[k]], draws[k]);
            proof {
                assert(entries_view(transactions@ + sent@) =~= entries_view(transactions@)
                    + entries_view(sent@));
                lemma_can_be_broadcast_add(entries_view(transactions@), entries_view(sent@));
            }
            transactions.append(&mut sent);
            k = k + 1;
        }
        proof {
            assert(order@.take(k as int) =~= order@);
            assert(draws@.take(k as int) =~= draws@);
        }
        transactions
    }
}

} // verus!
