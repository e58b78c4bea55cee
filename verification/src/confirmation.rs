use crate::custom_types::{Address, Slot};
use crate::function::FunctionType;
use crate::mempool::EntryView;
use crate::parameters::SHARD_NUM;
use crate::shard::ShardView;
use crate::shard_block::transactions_view;
use crate::sharded_blockchain::{
    last_holder, lemma_last_holder, ShardedBlockchain, ShardedBlockchainView,
};
use crate::strategy::users_are_placed;
use crate::transaction::{Transaction, TransactionView};
use crate::user::{sent_list_view, sent_view, User, UserView};
use vstd::prelude::*;

verus! {

/// Whether one of `transactions` has the hash of `transaction`.
pub open spec fn holds_hash_of(transactions: Seq<TransactionView>, transaction: TransactionView)
    -> bool {
    exists|k: int| 0 <= k < transactions.len()
        && (#[trigger] transactions[k]).hash == transaction.hash
}

/// Whether the first function of `transaction` takes in a whole account.
pub open spec fn is_arrival(transaction: TransactionView) -> bool {
    transaction.functions.len() > 0 && transaction.functions[0].ftype
        == FunctionType::ApplyCrossTransferAll
}

impl ShardedBlockchainView {
    /// Whether `transaction` is confirmed: the latest block of the shard
    /// that it is meant for holds it.
    pub open spec fn has_confirmed(self, transaction: TransactionView) -> bool {
        let shard = self.shards[transaction.shard_id as int];
        shard.blocks.len() > 0 && holds_hash_of(
            shard.blocks.last().executed_transactions,
            transaction,
        )
    }

    /// The chain after the account `addr` has been taken off every shard
    /// but `shard_id`.
    pub open spec fn swept(self, addr: Address, shard_id: int) -> ShardedBlockchainView {
        ShardedBlockchainView {
            shards: Seq::new(
                self.shards.len(),
                |i: int|
                    if i == shard_id {
                        self.shards[i]
                    } else {
                        self.shards[i].remove_account(addr)
                    },
            ),
            ..self
        }
    }

    /// The chain after the account `addr` was seen to arrive on
    /// `shard_id`. Where it has settled there, every other shard forgets
    /// it and the index is brought up to date; where it has not, nothing
    /// changes.
    pub open spec fn settle(self, addr: Address, shard_id: int) -> ShardedBlockchainView {
        if self.shards[shard_id].accounts.contains_key(addr) {
            self.swept(addr, shard_id).update_addr_to_shard_id(addr)
        } else {
            self
        }
    }

    /// The chain after the account `addr` was seen to arrive on each of
    /// `arrivals`, in order.
    pub open spec fn settle_all(self, addr: Address, arrivals: Seq<usize>) -> ShardedBlockchainView
        decreases arrivals.len(),
    {
        if arrivals.len() == 0 {
            self
        } else {
            self.settle_all(addr, arrivals.drop_last()).settle(addr, arrivals.last() as int)
        }
    }
}

/// The shards on which the confirmed transactions of `list` took in the
/// account of their sender, in the order of the list.
pub open spec fn arrivals_in(list: Seq<(Slot, EntryView)>, chain: ShardedBlockchainView)
    -> Seq<usize>
    decreases list.len(),
{
    if list.len() == 0 {
        Seq::empty()
    } else {
        let before = arrivals_in(list.drop_last(), chain);
        let transaction = list.last().1.0;
        if chain.has_confirmed(transaction) && is_arrival(transaction) {
            before.push(transaction.shard_id)
        } else {
            before
        }
    }
}

/// The transactions of `list` that are not confirmed, in their order.
pub open spec fn unconfirmed_of(list: Seq<(Slot, EntryView)>, chain: ShardedBlockchainView) -> Seq<
    (Slot, EntryView),
>
    decreases list.len(),
{
    if list.len() == 0 {
        Seq::empty()
    } else {
        let before = unconfirmed_of(list.drop_last(), chain);
        if chain.has_confirmed(list.last().1.0) {
            before
        } else {
            before.push(list.last())
        }
    }
}

impl UserView {
    /// The shards on which confirmed transactions of the user took in its
    /// account, from the lists of the shards below `upto`.
    pub open spec fn arrivals(self, chain: ShardedBlockchainView, upto: int) -> Seq<usize>
        decreases upto,
    {
        if upto <= 0 {
            Seq::empty()
        } else {
            self.arrivals(chain, upto - 1) + arrivals_in(
                self.unconfirmed_transactions_in_shard[upto - 1],
                chain,
            )
        }
    }

    /// The user without the transactions that are confirmed.
    pub open spec fn pruned(self, chain: ShardedBlockchainView) -> UserView {
        UserView {
            unconfirmed_transactions_in_shard: self.unconfirmed_transactions_in_shard.map_values(
                |list: Seq<(Slot, EntryView)>| unconfirmed_of(list, chain),
            ),
            ..self
        }
    }
}

/// What is left of a list after the confirmed transactions are gone is no
/// longer than the list, and holds only transactions of the list.
pub proof fn lemma_unconfirmed_of(list: Seq<(Slot, EntryView)>, chain: ShardedBlockchainView)
    ensures
        unconfirmed_of(list, chain).len() <= list.len(),
        forall|k: int|
            0 <= k < unconfirmed_of(list, chain).len() ==> list.contains(
                #[trigger] unconfirmed_of(list, chain)[k],
            ),
    decreases list.len(),
{
    if list.len() > 0 {
        let shorter = list.drop_last();
        lemma_unconfirmed_of(shorter, chain);
        let out = unconfirmed_of(list, chain);
        assert forall|k: int| 0 <= k < out.len() implies list.contains(#[trigger] out[k]) by {
            if k < unconfirmed_of(shorter, chain).len() {
                let found = unconfirmed_of(shorter, chain)[k];
                assert(shorter.contains(found));
                let j = choose|j: int| 0 <= j < shorter.len() && shorter[j] == found;
                assert(list[j] == found);
            } else {
                assert(list[list.len() - 1] == out[k]);
            }
        }
    }
}

/// A well-formed user is well formed without its confirmed transactions,
/// and its nonces stay within what they were within.
pub proof fn lemma_pruned(user: UserView, chain: ShardedBlockchainView, slot: Slot)
    requires
        user.wf(),
        user.nonces_within(slot, false),
    ensures
        user.pruned(chain).wf(),
        user.pruned(chain).nonces_within(slot, false),
        user.pruned(chain).nonces_within(slot, true),
{
    let after = user.pruned(chain);
    assert forall|s: int, k: int|
        0 <= s < SHARD_NUM && 0 <= k < after.unconfirmed_transactions_in_shard[s].len() implies (
    #[trigger] after.unconfirmed_transactions_in_shard[s][k]).1.0.shard_id == s by {
        let list = user.unconfirmed_transactions_in_shard[s];
        lemma_unconfirmed_of(list, chain);
        let found = unconfirmed_of(list, chain)[k];
        assert(list.contains(found));
        let j = choose|j: int| 0 <= j < list.len() && list[j] == found;
        assert(user.unconfirmed_transactions_in_shard[s][j].1.0.shard_id == s);
    }
    assert forall|s: int, k: int|
        0 <= s < SHARD_NUM && 0 <= k < after.unsent_transactions_in_shard[s].len() implies (
    #[trigger] after.unsent_transactions_in_shard[s][k]).0.shard_id == s by {
        assert(user.unsent_transactions_in_shard[s][k].0.shard_id == s);
    }
    assert forall|s: int| 0 <= s < SHARD_NUM implies (#[trigger] after.nonce_in_shard[s])
        <= slot by {
        assert(user.nonce_in_shard[s] <= slot);
    }
    assert forall|s: int| 0 <= s < SHARD_NUM implies (
    #[trigger] after.unconfirmed_transactions_in_shard[s]).len() <= 1 by {
        lemma_unconfirmed_of(user.unconfirmed_transactions_in_shard[s], chain);
    }
}

/// Whether the shard `after` has the ledger of `before`: chain, mempool,
/// receipts and nonces are the same; only accounts may differ.
pub open spec fn same_ledger(before: ShardView, after: ShardView) -> bool {
    &&& after.id == before.id
    &&& after.blocks == before.blocks
    &&& after.states == before.states
    &&& after.mempool == before.mempool
    &&& after.receipts == before.receipts
    &&& after.used_receipts == before.used_receipts
    &&& after.account_nonce == before.account_nonce
}

/// Whether the chain `after` has the ledgers of `before`: it stands at the
/// same slot, and every shard has the same ledger.
pub open spec fn same_ledgers(before: ShardedBlockchainView, after: ShardedBlockchainView) -> bool {
    &&& after.slot == before.slot
    &&& after.epoch == before.epoch
    &&& after.account_num == before.account_num
    &&& after.shards.len() == before.shards.len()
    &&& forall|i: int|
        0 <= i < before.shards.len() ==> same_ledger(before.shards[i], #[trigger] after.shards[i])
}

/// Settling an account keeps the chain well formed and every user
/// placed. Where the account has settled on the shard, no other shard
/// holds it afterwards, and the index names that shard.
pub proof fn lemma_settle(chain: ShardedBlockchainView, addr: Address, shard_id: int, user_num: int)
    requires
        chain.wf(),
        users_are_placed(chain, user_num),
        chain.addr_to_shard_id.contains_key(addr),
        0 <= shard_id < SHARD_NUM,
    ensures
        chain.settle(addr, shard_id).wf(),
        users_are_placed(chain.settle(addr, shard_id), user_num),
        chain.settle(addr, shard_id).addr_to_shard_id.contains_key(addr),
        same_ledgers(chain, chain.settle(addr, shard_id)),
        chain.shards[shard_id].accounts.contains_key(addr) ==> {
            &&& chain.settle(addr, shard_id).addr_to_shard_id[addr] == shard_id
            &&& forall|i: int|
                0 <= i < SHARD_NUM && i != shard_id ==> !(#[trigger] chain.settle(
                    addr,
                    shard_id,
                ).shards[i]).holds(addr)
        },
{
    if chain.shards[shard_id].accounts.contains_key(addr) {
        let swept = chain.swept(addr, shard_id);
        assert forall|i: int| 0 <= i < swept.shards.len() implies (#[trigger] swept.shards[i]).id
            == i && swept.shards[i].wf() by {
            let before = chain.shards[i];
            assert(before.id == i && before.wf());
            if i != shard_id {
                let after = swept.shards[i];
                assert forall|a: Address| #[trigger]
                    after.accounts.contains_key(a) implies after.accounts[a].shard_id
                    == after.id by {
                    assert(before.accounts.contains_key(a));
                }
                assert forall|a: Address| #[trigger]
                    after.moving_accounts.contains_key(a) implies after.moving_accounts[a].shard_id
                    == after.id by {
                    assert(before.moving_accounts.contains_key(a));
                }
                assert forall|k: int| 0 <= k < after.mempool.len() implies after.accepts(
                    (#[trigger] after.mempool[k]).0,
                ) by {
                    assert(before.accepts(before.mempool[k].0));
                }
                crate::shard_laws::lemma_wf_with_same_chain(before, after);
            }
        }
        assert(swept.wf()) by {
            assert forall|a: Address| swept.addr_to_shard_id.contains_key(a) implies (
            #[trigger] swept.addr_to_shard_id[a]) < SHARD_NUM by {
                assert(chain.addr_to_shard_id.contains_key(a));
            }
        }
        assert forall|i: int| 0 <= i < SHARD_NUM && i != shard_id implies !(
        #[trigger] swept.shards[i]).holds(addr) by {}
        assert(swept.shards[shard_id].holds(addr));
        lemma_last_holder(swept.shards, addr);
        let after = swept.update_addr_to_shard_id(addr);
        let named = swept.addr_to_shard_id[addr] as int;
        assert(named < SHARD_NUM);
        if swept.shards[named].holds(addr) {
            assert(named == shard_id);
        } else {
            match last_holder(swept.shards, addr) {
                Some(id) => {
                    assert(id == shard_id);
                },
                None => {
                    assert(!swept.shards[shard_id].holds(addr));
                },
            }
        }
        assert(after.addr_to_shard_id[addr] == shard_id);
        assert(after.wf()) by {
            assert forall|a: Address| after.addr_to_shard_id.contains_key(a) implies (
            #[trigger] after.addr_to_shard_id[a]) < SHARD_NUM by {
                if a != addr {
                    assert(chain.addr_to_shard_id.contains_key(a));
                }
            }
        }
        assert forall|a: Address| a < user_num
            implies #[trigger] after.addr_to_shard_id.contains_key(
            a,
        ) && after.shards[after.addr_to_shard_id[a] as int].holds(a) by {
            assert(chain.addr_to_shard_id.contains_key(a));
            if a != addr {
                let home = chain.addr_to_shard_id[a] as int;
                assert(chain.shards[home].holds(a));
                assert(after.addr_to_shard_id[a] == home);
                assert(swept.shards[home].holds(a));
            }
        }
        assert forall|i: int| 0 <= i < SHARD_NUM && i != shard_id implies !(
        #[trigger] after.shards[i]).holds(addr) by {
            assert(!swept.shards[i].holds(addr));
        }
        assert forall|i: int| 0 <= i < chain.shards.len() implies same_ledger(
            chain.shards[i],
            #[trigger] after.shards[i],
        ) by {
            assert(after.shards[i] == swept.shards[i]);
        }
    }
}

impl ShardedBlockchain {
    /// Whether `transaction` is confirmed: the latest block of the shard
    /// that it is meant for holds it.
    pub fn has_confirmed(&self, transaction: &Transaction) -> (confirmed: bool)
        requires
            transaction.shard_id < self@.shards.len(),
        ensures
            confirmed == self@.has_confirmed(transaction@),
    {
        let shard = &self.shards[transaction.shard_id];
        if shard.blocks.len() == 0 {
            return false;
        }
        let block = &shard.blocks[shard.blocks.len() - 1];
        let ghost executed = transactions_view(block.executed_transactions@);
        proof {
            assert(self@.shards[transaction.shard_id as int].blocks.last().executed_transactions
                == executed);
        }
        let mut k: usize = 0;
        while k < block.executed_transactions.len()
            invariant
                k <= block.executed_transactions.len(),
                executed == transactions_view(block.executed_transactions@),
                transaction.shard_id < self@.shards.len(),
                self@.shards[transaction.shard_id as int].blocks.len() > 0,
                self@.shards[transaction.shard_id as int].blocks.last().executed_transactions
                    == executed,
                forall|j: int| 0 <= j < k ==> (#[trigger] executed[j]).hash != transaction.hash,
            decreases block.executed_transactions.len() - k,
        {
            if block.executed_transactions[k].hash == transaction.hash {
                proof {
                    assert(executed[k as int].hash == transaction@.hash);
                }
                return true;
            }
            k = k + 1;
        }
        false
    }

    /// Takes note that the account `addr` was seen to arrive on
    /// `shard_id`: where it has settled there, every other shard forgets
    /// it and the index is brought up to date.
    pub fn settle_account(&mut self, addr: Address, shard_id: usize)
        requires
            old(self).wf(),
            old(self)@.addr_to_shard_id.contains_key(addr),
            shard_id < SHARD_NUM,
        ensures
            final(self)@ == old(self)@.settle(addr, shard_id as int),
            final(self).wf(),
    {
        let ghost start = self@;
        proof {
            lemma_settle(start, addr, shard_id as int, 0);
        }
        if self.shards[shard_id].get_account(addr).is_none() {
            return ;
        }
        let mut i: usize = 0;
        while i < self.shards.len()
            invariant
                i <= self.shards.len(),
                start.wf(),
                shard_id < SHARD_NUM,
                self@.shards.len() == start.shards.len(),
                self@.slot == start.slot,
                self@.epoch == start.epoch,
                self@.account_num == start.account_num,
                self@.addr_to_shard_id == start.addr_to_shard_id,
                forall|k: int|
                    0 <= k < i ==> (#[trigger] self@.shards[k]) == start.swept(
                        addr,
                        shard_id as int,
                    ).shards[k],
                forall|k: int| i <= k < self.shards.len()
                    ==> (#[trigger] self@.shards[k]) == start.shards[k],
            decreases self.shards.len() - i,
        {
            let ghost before = self@.shards;
            if self.shards[i].id != shard_id {
                self.shards[i].remove_account(addr);
            } else {
                proof {
                    assert(self@.shards[i as int] == start.shards[i as int]);
                    assert(start.shards[i as int].id == i);
                }
            }
            proof {
                assert(before[i as int] == start.shards[i as int]);
                assert(start.shards[i as int].id == i);
                assert forall|k: int| 0 <= k < self.shards.len() && k != i implies (
                #[trigger] self@.shards[k]) == before[k] by {}
            }
            i = i + 1;
        }
        proof {
            assert(self@.shards =~= start.swept(addr, shard_id as int).shards);
            assert(self@ == start.swept(addr, shard_id as int));
            let swept = start.swept(addr, shard_id as int);
            assert forall|k: int| 0 <= k < swept.shards.len()
                implies (#[trigger] swept.shards[k]).id
                == k && swept.shards[k].wf() by {
                assert(self@.shards[k] == swept.shards[k]);
                if k != shard_id {
                    let before = start.shards[k];
                    let after = swept.shards[k];
                    assert(before.wf() && before.id == k);
                    assert forall|a: Address| #[trigger]
                        after.accounts.contains_key(a) implies after.accounts[a].shard_id
                        == after.id by {
                        assert(before.accounts.contains_key(a));
                    }
                    assert forall|a: Address| #[trigger]
                        after.moving_accounts.contains_key(a)
                            implies after.moving_accounts[a].shard_id
                        == after.id by {
                        assert(before.moving_accounts.contains_key(a));
                    }
                    assert forall|j: int| 0 <= j < after.mempool.len() implies after.accepts(
                        (#[trigger] after.mempool[j]).0,
                    ) by {
                        assert(before.accepts(before.mempool[j].0));
                    }
                    crate::shard_laws::lemma_wf_with_same_chain(before, after);
                } else {
                    assert(swept.shards[k] == start.shards[k]);
                }
            }
            assert(swept.wf()) by {
                assert forall|a: Address| swept.addr_to_shard_id.contains_key(a) implies (
                #[trigger] swept.addr_to_shard_id[a]) < SHARD_NUM by {
                    assert(start.addr_to_shard_id.contains_key(a));
                }
            }
        }
        self.update_addr_to_shard_id(addr);
    }
}

impl User {
    /// The shards on which confirmed transactions of the user took in its
    /// account.
    pub fn confirmed_arrivals(&self, chain: &ShardedBlockchain) -> (shards: Vec<usize>)
        requires
            self.wf(),
            chain@.shards.len() == SHARD_NUM,
        ensures
            shards@ == self@.arrivals(chain@, SHARD_NUM as int),
            forall|k: int| 0 <= k < shards.len() ==> (#[trigger] shards[k]) < SHARD_NUM,
    {
        let mut shards: Vec<usize> = Vec::new();
        let mut s: usize = 0;
        while s < SHARD_NUM
            invariant
                s <= SHARD_NUM,
                self.wf(),
                chain@.shards.len() == SHARD_NUM,
                shards@ == self@.arrivals(chain@, s as int),
                forall|k: int| 0 <= k < shards.len() ==> (#[trigger] shards[k]) < SHARD_NUM,
            decreases SHARD_NUM - s,
        {
            let list = &self.unconfirmed_transactions_in_shard[s];
            let ghost listed = self@.unconfirmed_transactions_in_shard[s as int];
            let ghost before = shards@;
            let mut k: usize = 0;
            proof {
                assert(listed == sent_list_view(list@));
                assert(listed.take(0) =~= Seq::empty());
                assert(before + Seq::<usize>::empty() =~= before);
            }
            while k < list.len()
                invariant
                    k <= list.len(),
                    s < SHARD_NUM,
                    chain@.shards.len() == SHARD_NUM,
                    listed == sent_list_view(list@),
                    forall|j: int| 0 <= j < listed.len()
                        ==> (#[trigger] listed[j]).1.0.shard_id == s,
                    shards@ == before + arrivals_in(listed.take(k as int), chain@),
                    forall|j: int| 0 <= j < shards.len() ==> (#[trigger] shards[j]) < SHARD_NUM,
                decreases list.len() - k,
            {
                proof {
                    assert(listed.take(k + 1).drop_last() =~= listed.take(k as int));
                    assert(listed.take(k + 1).last() == listed[k as int]);
                    assert(listed[k as int] == sent_view(list@[k as int]));
                    assert(listed[k as int].1.0.shard_id == s);
                }
                let transaction = &list[k].1.0;
                if chain.has_confirmed(transaction) && transaction.functions.len() > 0 {
                    let arrives = match transaction.functions[0].ftype {
                        FunctionType::ApplyCrossTransferAll => true,
                        _ => false,
                    };
                    proof {
                        assert(transaction@.functions[0] == transaction.functions[0]@);
                    }
                    if arrives {
                        shards.push(transaction.shard_id);
                        proof {
                            assert(shards@ =~= before + arrivals_in(listed.take(k + 1), chain@));
                        }
                    }
                }
                k = k + 1;
            }
            proof {
                assert(listed.take(k as int) =~= listed);
            }
            s = s + 1;
        }
        shards
    }

    /// Forgets the transactions that are confirmed.
    pub fn prune_confirmed(&mut self, chain: &ShardedBlockchain)
        requires
            old(self).wf(),
            chain@.shards.len() == SHARD_NUM,
        ensures
            final(self)@ == old(self)@.pruned(chain@),
    {
        let ghost start = self@;
        let mut s: usize = 0;
        while s < SHARD_NUM
            invariant
                s <= SHARD_NUM,
                start.wf(),
                chain@.shards.len() == SHARD_NUM,
                self@.account_addr == start.account_addr,
                self@.user_type == start.user_type,
                self@.nonce_in_shard == start.nonce_in_shard,
                self@.unsent_transactions_in_shard == start.unsent_transactions_in_shard,
                self@.unconfirmed_transactions_in_shard.len() == SHARD_NUM,
                forall|r: int|
                    0 <= r < s ==> (#[trigger] self@.unconfirmed_transactions_in_shard[r])
                        == unconfirmed_of(start.unconfirmed_transactions_in_shard[r], chain@),
                forall|r: int|
                    s <= r < SHARD_NUM ==> (#[trigger] self@.unconfirmed_transactions_in_shard[r])
                        == start.unconfirmed_transactions_in_shard[r],
            decreases SHARD_NUM - s,
        {
            let ghost listed = start.unconfirmed_transactions_in_shard[s as int];
            let ghost mut seen: int = 0;
            let mut k: usize = 0;
            proof {
                assert(self@.unconfirmed_transactions_in_shard[s as int] == listed);
                assert(listed.take(0) =~= Seq::empty());
                assert(Seq::<(Slot, EntryView)>::empty() + listed.skip(0) =~= listed);
            }
            while k < self.unconfirmed_transactions_in_shard[s].len()
                invariant
                    s < SHARD_NUM,
                    start.wf(),
                    chain@.shards.len() == SHARD_NUM,
                    listed == start.unconfirmed_transactions_in_shard[s as int],
                    0 <= seen <= listed.len(),
                    k == unconfirmed_of(listed.take(seen), chain@).len(),
                    self@.unconfirmed_transactions_in_shard[s as int] == unconfirmed_of(
                        listed.take(seen),
                        chain@,
                    ) + listed.skip(seen),
                    self@.account_addr == start.account_addr,
                    self@.user_type == start.user_type,
                    self@.nonce_in_shard == start.nonce_in_shard,
                    self@.unsent_transactions_in_shard == start.unsent_transactions_in_shard,
                    self@.unconfirmed_transactions_in_shard.len() == SHARD_NUM,
                    forall|r: int|
                        0 <= r < s ==> (#[trigger] self@.unconfirmed_transactions_in_shard[r])
                            == unconfirmed_of(start.unconfirmed_transactions_in_shard[r], chain@),
                    forall|r: int|
                        s < r < SHARD_NUM
                            ==> (#[trigger] self@.unconfirmed_transactions_in_shard[r])
                            == start.unconfirmed_transactions_in_shard[r],
                decreases listed.len() - seen,
            {
                let ghost before = self@;
                let ghost current = self@.unconfirmed_transactions_in_shard[s as int];
                let ghost kept = unconfirmed_of(listed.take(seen), chain@);
                proof {
                    assert(seen < listed.len());
                    assert(current[k as int] == listed.skip(seen)[0]);
                    assert(listed.take(seen + 1).drop_last() =~= listed.take(seen));
                    assert(listed.take(seen + 1).last() == listed[seen]);
                    assert(listed[seen].1.0.shard_id == s);
                    assert(current
                        == sent_list_view(self.unconfirmed_transactions_in_shard[s as int]@));
                    assert(current[k as int] == sent_view(
                        self.unconfirmed_transactions_in_shard[s as int]@[k as int],
                    ));
                }
                if chain.has_confirmed(&self.unconfirmed_transactions_in_shard[s][k].1.0) {
                    let ghost list = self.unconfirmed_transactions_in_shard[s as int]@;
                    self.unconfirmed_transactions_in_shard[s].remove(k);
                    proof {
                        assert(sent_list_view(list.remove(k as int)) =~=
                            sent_list_view(list).remove(
                            k as int,
                        ));
                        assert(current.remove(k as int) =~= kept + listed.skip(seen + 1));
                    }
                } else {
                    k = k + 1;
                    proof {
                        assert(current =~= kept.push(listed[seen]) + listed.skip(seen + 1));
                    }
                }
                proof {
                    seen = seen + 1;
                    assert forall|r: int| 0 <= r < SHARD_NUM && r != s implies (
                    #[trigger] self@.unconfirmed_transactions_in_shard[r])
                        == before.unconfirmed_transactions_in_shard[r] by {}
                    assert(self@.unsent_transactions_in_shard
                        =~= before.unsent_transactions_in_shard);
                }
            }
            proof {
                let kept = unconfirmed_of(listed.take(seen), chain@);
                assert(self@.unconfirmed_transactions_in_shard[s as int].len() == kept.len()
                    + listed.skip(seen).len());
                assert(seen == listed.len());
                assert(listed.take(seen) =~= listed);
                assert(kept + listed.skip(seen) =~= kept);
            }
            s = s + 1;
        }
        proof {
            assert(self@.unconfirmed_transactions_in_shard =~= start.pruned(
                chain@,
            ).unconfirmed_transactions_in_shard);
        }
    }
}

} // verus!
