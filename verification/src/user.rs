use crate::custom_types::{Address, Nonce, Slot, TransactionHash};
use crate::mempool::{entry_view, EntryView};
use crate::parameters::SHARD_NUM;
use crate::transaction::{Transaction, TransactionAndReceipt, TransactionView};
use std::collections::VecDeque;
use vstd::prelude::*;

verus! {

/// How a user chooses the shard to live on.
#[derive(PartialEq, Eq, Structural, Clone, Copy, Debug)]
pub enum StrategyType {
    /// Stays where it is.
    NonSwitcher,
    /// Moves to a cheaper shard, drawn with the saving as its weight.
    WeightedRandom,
    /// Moves to the cheapest shard.
    Minimum,
    /// Moves to the cheapest shard whose base fee is not rising.
    DecreasingMinimum,
}

impl StrategyType {
    pub fn is_switcher(&self) -> (switcher: bool)
        ensures
            switcher == (*self != StrategyType::NonSwitcher),
    {
        match self {
            StrategyType::NonSwitcher => false,
            _ => true,
        }
    }
}

/// A transaction that was sent in a slot and awaits its block.
pub type SentTransaction = (Slot, TransactionAndReceipt);

/// A transaction that waits to be sent until the transaction with the
/// given hash has succeeded.
pub type QueuedTransaction = (Transaction, TransactionHash);

/// A user: one account, the transactions it has under way on each shard,
/// and its strategy.
pub struct User {
    pub account_addr: Address,
    /// For each shard, the transactions that await confirmation.
    pub unconfirmed_transactions_in_shard: Vec<Vec<SentTransaction>>,
    /// For each shard, the transactions that wait to be sent.
    pub unsent_transactions_in_shard: Vec<VecDeque<QueuedTransaction>>,
    pub nonce_in_shard: Vec<Nonce>,
    pub user_type: StrategyType,
}

/// What a `User` holds, as mathematical values.
pub struct UserView {
    pub account_addr: Address,
    pub unconfirmed_transactions_in_shard: Seq<Seq<(Slot, EntryView)>>,
    pub unsent_transactions_in_shard: Seq<Seq<(TransactionView, TransactionHash)>>,
    pub nonce_in_shard: Seq<Nonce>,
    pub user_type: StrategyType,
}

/// The view of a sent transaction.
pub open spec fn sent_view(sent: SentTransaction) -> (Slot, EntryView) {
    (sent.0, entry_view(sent.1))
}

/// The views of the sent transactions of one shard.
pub open spec fn sent_list_view(list: Seq<SentTransaction>) -> Seq<(Slot, EntryView)> {
    list.map_values(|s: SentTransaction| sent_view(s))
}

/// The view of a queued transaction.
pub open spec fn queued_view(queued: QueuedTransaction) -> (TransactionView, TransactionHash) {
    (queued.0@, queued.1)
}

/// The views of the queued transactions of one shard.
pub open spec fn queue_view(queue: Seq<QueuedTransaction>)
    -> Seq<(TransactionView, TransactionHash)> {
    queue.map_values(|q: QueuedTransaction| queued_view(q))
}

impl View for User {
    type V = UserView;

    open spec fn view(&self) -> UserView {
        UserView {
            account_addr: self.account_addr,
            unconfirmed_transactions_in_shard: self.unconfirmed_transactions_in_shard@.map_values(
                |list: Vec<SentTransaction>| sent_list_view(list@),
            ),
            unsent_transactions_in_shard: self.unsent_transactions_in_shard@.map_values(
                |queue: VecDeque<QueuedTransaction>| queue_view(queue@),
            ),
            nonce_in_shard: self.nonce_in_shard@,
            user_type: self.user_type,
        }
    }
}

impl UserView {
    /// The user of `account_addr` with nothing under way.
    pub open spec fn fresh(account_addr: Address, user_type: StrategyType) -> UserView {
        UserView {
            account_addr,
            unconfirmed_transactions_in_shard: Seq::new(SHARD_NUM as nat, |i: int| Seq::empty()),
            unsent_transactions_in_shard: Seq::new(SHARD_NUM as nat, |i: int| Seq::empty()),
            nonce_in_shard: Seq::new(SHARD_NUM as nat, |i: int| 0usize),
            user_type,
        }
    }

    /// Whether the user keeps its books for every shard, every
    /// transaction under way is filed under the shard that it is meant
    /// for, and on no shard more than one transaction awaits its block.
    pub open spec fn wf(self) -> bool {
        &&& self.unconfirmed_transactions_in_shard.len() == SHARD_NUM
        &&& self.unsent_transactions_in_shard.len() == SHARD_NUM
        &&& self.nonce_in_shard.len() == SHARD_NUM
        &&& forall|s: int|
            0 <= s < SHARD_NUM ==> (#[trigger] self.unconfirmed_transactions_in_shard[s]).len()
                <= 1
        &&& forall|s: int, k: int|
            0 <= s < SHARD_NUM && 0 <= k < self.unconfirmed_transactions_in_shard[s].len() ==> (
            #[trigger] self.unconfirmed_transactions_in_shard[s][k]).1.0.shard_id == s
        &&& forall|s: int, k: int|
            0 <= s < SHARD_NUM && 0 <= k < self.unsent_transactions_in_shard[s].len() ==> (
            #[trigger] self.unsent_transactions_in_shard[s][k]).0.shard_id == s
    }

    /// Whether a transaction of the user awaits its block on `shard_id`.
    pub open spec fn is_busy_on(self, shard_id: int) -> bool {
        self.unconfirmed_transactions_in_shard[shard_id].len() > 0
    }

    /// Whether the user has used no more nonces on any shard than `slot`
    /// slots allow: one for each slot that has passed, and `during` the
    /// slot `slot` one more where a transaction is under way.
    pub open spec fn nonces_within(self, slot: Slot, during: bool) -> bool {
        forall|s: int|
            0 <= s < SHARD_NUM ==> (#[trigger] self.nonce_in_shard[s]) <= slot + if during
                && self.is_busy_on(s) {
                1int
            } else {
                0int
            }
    }

    /// The user after it has sent `entry` to `shard_id` in `slot`: the
    /// transaction awaits its block, and the nonce for the shard is used.
    pub open spec fn after_sending(self, shard_id: int, slot: Slot, entry: EntryView) -> UserView {
        UserView {
            unconfirmed_transactions_in_shard: self.unconfirmed_transactions_in_shard.update(
                shard_id,
                self.unconfirmed_transactions_in_shard[shard_id].push((slot, entry)),
            ),
            nonce_in_shard: self.nonce_in_shard.update(
                shard_id,
                (self.nonce_in_shard[shard_id] + 1) as usize,
            ),
            ..self
        }
    }

    /// The user after it has queued `transaction` for `shard_id`, to be
    /// sent once the transaction with the hash `awaited` has succeeded.
    pub open spec fn after_queueing(
        self,
        shard_id: int,
        transaction: TransactionView,
        awaited: TransactionHash,
    ) -> UserView {
        UserView {
            unsent_transactions_in_shard: self.unsent_transactions_in_shard.update(
                shard_id,
                self.unsent_transactions_in_shard[shard_id].push((transaction, awaited)),
            ),
            ..self
        }
    }
}

impl User {
    /// Whether the user is well formed.
    pub open spec fn wf(&self) -> bool {
        self@.wf()
    }

    pub fn new(account_addr: Address, user_type: StrategyType) -> (user: Self)
        ensures
            user@ == UserView::fresh(account_addr, user_type),
            user.wf(),
    {
        let mut unconfirmed: Vec<Vec<SentTransaction>> = Vec::new();
        let mut unsent: Vec<VecDeque<QueuedTransaction>> = Vec::new();
        let mut nonces: Vec<Nonce> = Vec::new();
        let mut i: usize = 0;
        while i < SHARD_NUM
            invariant
                i <= SHARD_NUM,
                unconfirmed.len() == i,
                unsent.len() == i,
                nonces.len() == i,
                forall|k: int| 0 <= k < i ==> (#[trigger] unconfirmed[k])@.len() == 0,
                forall|k: int| 0 <= k < i ==> (#[trigger] unsent[k])@.len() == 0,
                forall|k: int| 0 <= k < i ==> #[trigger] nonces[k] == 0,
            decreases SHARD_NUM - i,
        {
            unconfirmed.push(Vec::new());
            unsent.push(VecDeque::new());
            nonces.push(0);
            i = i + 1;
        }
        let user = Self {
            account_addr,
            unconfirmed_transactions_in_shard: unconfirmed,
            unsent_transactions_in_shard: unsent,
            nonce_in_shard: nonces,
            user_type,
        };
        proof {
            let fresh = UserView::fresh(account_addr, user_type);
            assert forall|k: int| 0 <= k < SHARD_NUM implies (
            #[trigger] user@.unconfirmed_transactions_in_shard[k]) =~= Seq::empty() by {
                assert(user.unconfirmed_transactions_in_shard[k]@.len() == 0);
            }
            assert forall|k: int| 0 <= k < SHARD_NUM implies (
            #[trigger] user@.unsent_transactions_in_shard[k]) =~= Seq::empty() by {
                assert(user.unsent_transactions_in_shard[k]@.len() == 0);
            }
            assert(user@.unconfirmed_transactions_in_shard =~=
                fresh.unconfirmed_transactions_in_shard);
            assert(user@.unsent_transactions_in_shard =~= fresh.unsent_transactions_in_shard);
            assert(user@.nonce_in_shard =~= fresh.nonce_in_shard);
        }
        user
    }

    /// Whether a transaction of the user awaits its block on `shard_id`.
    pub fn is_busy_on(&self, shard_id: usize) -> (busy: bool)
        requires
            shard_id < self@.unconfirmed_transactions_in_shard.len(),
        ensures
            busy == self@.is_busy_on(shard_id as int),
    {
        self.unconfirmed_transactions_in_shard[shard_id].len() > 0
    }

    /// Books a transaction that was sent to `shard_id` in `slot`.
    pub fn record_sent(
        &mut self,
        shard_id: usize,
        slot: Slot,
        transaction: Transaction,
        receipt: Option<crate::receipt::Receipt>,
    )
        requires
            old(self).wf(),
            shard_id < SHARD_NUM,
            transaction.shard_id == shard_id,
            !old(self)@.is_busy_on(shard_id as int),
            old(self)@.nonce_in_shard[shard_id as int] < usize::MAX,
        ensures
            final(self)@ == old(self)@.after_sending(
                shard_id as int,
                slot,
                (transaction@, crate::receipt::receipt_option_view(receipt)),
            ),
            final(self).wf(),
    {
        let ghost start = self@;
        let ghost entry = (transaction@, crate::receipt::receipt_option_view(receipt));
        let ghost list = self.unconfirmed_transactions_in_shard[shard_id as int]@;
        self.unconfirmed_transactions_in_shard[shard_id].push((slot, (transaction, receipt)));
        self.nonce_in_shard[shard_id] = self.nonce_in_shard[shard_id] + 1;
        proof {
            let after = start.after_sending(shard_id as int, slot, entry);
            assert(sent_list_view(list.push((slot, (transaction, receipt)))) =~= sent_list_view(
                list,
            ).push((slot, entry)));
            assert(self@.unconfirmed_transactions_in_shard =~=
                after.unconfirmed_transactions_in_shard);
            assert(self@.unsent_transactions_in_shard =~= after.unsent_transactions_in_shard);
            assert(self@.nonce_in_shard =~= after.nonce_in_shard);
            assert forall|s: int, k: int|
                0 <= s < SHARD_NUM
                    && 0 <= k < after.unconfirmed_transactions_in_shard[s].len() implies (
            #[trigger] after.unconfirmed_transactions_in_shard[s][k]).1.0.shard_id == s by {
                if s == shard_id && k == start.unconfirmed_transactions_in_shard[s].len() {
                } else {
                    assert(after.unconfirmed_transactions_in_shard[s][k]
                        == start.unconfirmed_transactions_in_shard[s][k]);
                }
            }
        }
    }

    /// Queues a transaction for `shard_id`, to be sent once the
    /// transaction with the hash `awaited` has succeeded.
    pub fn queue(&mut self, shard_id: usize, transaction: Transaction, awaited: TransactionHash)
        requires
            old(self).wf(),
            shard_id < SHARD_NUM,
            transaction.shard_id == shard_id,
        ensures
            final(self)@ == old(self)@.after_queueing(shard_id as int, transaction@, awaited),
            final(self).wf(),
    {
        let ghost start = self@;
        let ghost queue = self.unsent_transactions_in_shard[shard_id as int]@;
        self.unsent_transactions_in_shard[shard_id].push_back((transaction, awaited));
        proof {
            let after = start.after_queueing(shard_id as int, transaction@, awaited);
            assert(queue_view(queue.push((transaction, awaited))) =~= queue_view(queue).push(
                (transaction@, awaited),
            ));
            assert(self@.unsent_transactions_in_shard =~= after.unsent_transactions_in_shard);
            assert(self@.unconfirmed_transactions_in_shard =~=
                after.unconfirmed_transactions_in_shard);
            assert forall|s: int, k: int|
                0 <= s < SHARD_NUM && 0 <= k < after.unsent_transactions_in_shard[s].len() implies (
            #[trigger] after.unsent_transactions_in_shard[s][k]).0.shard_id == s by {
                if s == shard_id && k == start.unsent_transactions_in_shard[s].len() {
                } else {
                    assert(after.unsent_transactions_in_shard[s][k]
                        == start.unsent_transactions_in_shard[s][k]);
                }
            }
        }
    }
}

} // verus!
