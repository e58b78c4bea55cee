use crate::confirmation::{same_ledger, same_ledgers};
use crate::custom_types::Address;
use crate::emission::{can_be_broadcast, lemma_can_be_broadcast_add};
use crate::environment::{record_view, Environment, EnvironmentView};
use crate::generation::{has_emitted, is_decision_of, places};
use crate::mempool::{clone_entry, entries_view, entry_view, EntryView};
use crate::parameters::SHARD_NUM;
use crate::shard_laws::lemma_process_slot;
use crate::sharded_blockchain::{lemma_step_wf, ShardedBlockchainView};
use crate::strategy::{users_are_placed, Decision};
use crate::transaction::TransactionAndReceipt;
use vstd::prelude::*;

verus! {

impl ShardedBlockchainView {
    /// The chain after `transactions` have been broadcast: each stands at
    /// the end of the mempool of the shard that it is meant for, in the
    /// order of the broadcast.
    pub open spec fn broadcast(self, transactions: Seq<EntryView>) -> ShardedBlockchainView
        decreases transactions.len(),
    {
        if transactions.len() == 0 {
            self
        } else {
            let before = self.broadcast(transactions.drop_last());
            let entry = transactions.last();
            let shard_id = entry.0.shard_id as int;
            ShardedBlockchainView {
                shards: before.shards.update(
                    shard_id,
                    before.shards[shard_id].push_transaction(entry),
                ),
                ..before
            }
        }
    }

    /// Whether `after` may come from this chain by a broadcast: only
    /// mempools differ.
    pub open spec fn differs_in_mempools(self, after: ShardedBlockchainView) -> bool {
        &&& after.slot == self.slot
        &&& after.epoch == self.epoch
        &&& after.account_num == self.account_num
        &&& after.addr_to_shard_id == self.addr_to_shard_id
        &&& after.shards.len() == self.shards.len()
        &&& forall|i: int|
            0 <= i < self.shards.len() ==> {
                let old_shard = self.shards[i];
                let new_shard = #[trigger] after.shards[i];
                &&& new_shard.id == old_shard.id
                &&& new_shard.blocks == old_shard.blocks
                &&& new_shard.states == old_shard.states
                &&& new_shard.accounts == old_shard.accounts
                &&& new_shard.moving_accounts == old_shard.moving_accounts
                &&& new_shard.receipts == old_shard.receipts
                &&& new_shard.used_receipts == old_shard.used_receipts
                &&& new_shard.account_nonce == old_shard.account_nonce
            }
    }
}

/// What chance decides in the turn of one user: the number that says
/// whether a move is due, the order in which the edges are taken, and the
/// number for each edge.
pub struct Choices {
    pub move_draw: u32,
    pub order: Seq<usize>,
    pub draws: Seq<u32>,
}

/// What making transactions leaves: the environment afterwards, and the
/// transactions to broadcast.
pub struct Generated {
    pub environment: EnvironmentView,
    pub transactions: Seq<EntryView>,
}

impl EnvironmentView {
    /// The turn of the user `from`: it takes in its confirmations, then
    /// acts on its queues, on its decision and on its edges.
    pub open spec fn turn(self, from: int, decision: Decision, choices: Choices) -> Generated {
        let reconciled = self.reconciled(from);
        let chain = reconciled.blockchain;
        let drained = reconciled.users[from].drain(chain, SHARD_NUM as int);
        let moved = drained.user.move_out(chain, decision, choices.move_draw);
        let sent = moved.user.transfer_all(
            chain,
            reconciled.user_graph.edges[from],
            choices.order,
            choices.draws,
        );
        Generated {
            environment: reconciled.with_user(from, sent.user),
            transactions: drained.transactions + moved.transactions + sent.transactions,
        }
    }

    /// The turns of the users below `upto`, in the order of their
    /// addresses.
    pub open spec fn turns(self, decisions: Seq<Decision>, choices: Seq<Choices>, upto: int)
        -> Generated
        decreases upto,
    {
        if upto <= 0 {
            Generated { environment: self, transactions: Seq::empty() }
        } else {
            let before = self.turns(decisions, choices, upto - 1);
            let step = before.environment.turn(upto - 1, decisions[upto - 1], choices[upto - 1]);
            Generated {
                environment: step.environment,
                transactions: before.transactions + step.transactions,
            }
        }
    }

    /// Whether `decisions` and `choices` can be what the users decide and
    /// what chance decides in a slot: there is a decision of every user,
    /// taken on this environment, and for every user an order that holds
    /// each of its edges once, with a number for each.
    pub open spec fn accepts_choices(self, decisions: Seq<Decision>, choices: Seq<Choices>) -> bool {
        &&& decisions.len() == self.users.len()
        &&& choices.len() == self.users.len()
        &&& forall|u: int|
            0 <= u < self.users.len() ==> is_decision_of(self, u, #[trigger] decisions[u])
        &&& forall|u: int|
            0 <= u < self.users.len() ==> (#[trigger] choices[u]).order.to_multiset() == places(
                self.user_graph.edges[u].len(),
            ).to_multiset() && choices[u].draws.len() == choices[u].order.len()
    }

    /// The environment and the transactions after every user has had its
    /// turn.
    pub open spec fn generation(self, decisions: Seq<Decision>, choices: Seq<Choices>)
        -> Generated {
        self.turns(decisions, choices, self.users.len() as int)
    }

    /// The environment one slot later: every user has had its turn, the
    /// transactions are broadcast, every shard has made its block, and the
    /// number of settled accounts and the size of the mempool of each
    /// shard are on record.
    pub open spec fn after_slot(self, decisions: Seq<Decision>, choices: Seq<Choices>)
        -> EnvironmentView {
        let made = self.generation(decisions, choices);
        let chain = made.environment.blockchain.broadcast(made.transactions).step();
        EnvironmentView {
            blockchain: chain,
            user_num_mem: made.environment.user_num_mem.push(
                Seq::new(chain.shards.len(), |i: int| chain.shards[i].accounts.len() as usize),
            ),
            mempool_tx_mem: made.environment.mempool_tx_mem.push(
                Seq::new(chain.shards.len(), |i: int| chain.shards[i].mempool.len() as usize),
            ),
            ..made.environment
        }
    }
}

/// Whether `after` and `out` are what the turns of all users leave of
/// `before`, for decisions and choices that it accepts.
pub open spec fn has_generated(
    before: EnvironmentView,
    decisions: Seq<Decision>,
    choices: Seq<Choices>,
    after: EnvironmentView,
    out: Seq<EntryView>,
) -> bool {
    &&& before.accepts_choices(decisions, choices)
    &&& after == before.generation(decisions, choices).environment
    &&& out == before.generation(decisions, choices).transactions
}

/// Whether `after` is `before` one slot later, for decisions and choices
/// that it accepts.
pub open spec fn has_advanced(
    before: EnvironmentView,
    decisions: Seq<Decision>,
    choices: Seq<Choices>,
    after: EnvironmentView,
) -> bool {
    before.accepts_choices(decisions, choices) && after == before.after_slot(decisions, choices)
}

/// The turns of the first users do not depend on the choices for later
/// users.
pub proof fn lemma_turns_push(
    environment: EnvironmentView,
    decisions: Seq<Decision>,
    choices: Seq<Choices>,
    more: Choices,
    upto: int,
)
    requires
        upto <= choices.len(),
    ensures
        environment.turns(decisions, choices.push(more), upto) == environment.turns(
            decisions,
            choices,
            upto,
        ),
    decreases upto,
{
    if upto > 0 {
        lemma_turns_push(environment, decisions, choices, more, upto - 1);
        assert(choices.push(more)[upto - 1] == choices[upto - 1]);
    }
}

/// The ledgers of a chain are its own.
pub proof fn lemma_same_ledgers_reflexive(chain: ShardedBlockchainView)
    ensures
        same_ledgers(chain, chain),
{
    assert forall|i: int| 0 <= i < chain.shards.len() implies same_ledger(
        chain.shards[i],
        #[trigger] chain.shards[i],
    ) by {}
}

/// A chain with the ledgers of a second, which has the ledgers of a
/// third, has the ledgers of the third.
pub proof fn lemma_same_ledgers_transitive(
    first: ShardedBlockchainView,
    second: ShardedBlockchainView,
    third: ShardedBlockchainView,
)
    requires
        same_ledgers(first, second),
        same_ledgers(second, third),
    ensures
        same_ledgers(first, third),
{
    assert forall|i: int| 0 <= i < first.shards.len() implies same_ledger(
        first.shards[i],
        #[trigger] third.shards[i],
    ) by {
        assert(same_ledger(first.shards[i], second.shards[i]));
        assert(same_ledger(second.shards[i], third.shards[i]));
    }
}

/// A broadcast of transactions that can be broadcast keeps the chain well
/// formed and every user placed, and changes nothing but mempools.
pub proof fn lemma_broadcast(chain: ShardedBlockchainView, transactions: Seq<EntryView>,
    user_num: int)
    requires
        chain.wf(),
        can_be_broadcast(transactions),
        users_are_placed(chain, user_num),
    ensures
        chain.broadcast(transactions).wf(),
        users_are_placed(chain.broadcast(transactions), user_num),
        chain.differs_in_mempools(chain.broadcast(transactions)),
    decreases transactions.len(),
{
    if transactions.len() > 0 {
        let shorter = transactions.drop_last();
        assert forall|k: int| 0 <= k < shorter.len() implies (#[trigger] shorter[k]).0.shard_id
            < SHARD_NUM && shorter[k].0.nonce < usize::MAX by {
            assert(shorter[k] == transactions[k]);
        }
        lemma_broadcast(chain, shorter, user_num);
        let before = chain.broadcast(shorter);
        let after = chain.broadcast(transactions);
        let entry = transactions[transactions.len() - 1];
        let shard_id = entry.0.shard_id as int;
        let shard = before.shards[shard_id];
        let pushed = shard.push_transaction(entry);
        assert(shard.wf() && shard.id == shard_id);
        assert(pushed.wf()) by {
            assert forall|i: int| 0 <= i < pushed.mempool.len() implies pushed.accepts(
                (#[trigger] pushed.mempool[i]).0,
            ) by {
                if i < shard.mempool.len() {
                    assert(shard.accepts(shard.mempool[i].0));
                }
            }
            crate::shard_laws::lemma_wf_with_same_chain(shard, pushed);
        }
        assert forall|i: int| 0 <= i < after.shards.len() implies (#[trigger] after.shards[i]).id
            == i && after.shards[i].wf() by {
            if i != shard_id {
                assert(after.shards[i] == before.shards[i]);
            }
        }
        assert forall|a: Address| a < user_num
            implies #[trigger] after.addr_to_shard_id.contains_key(
            a,
        ) && after.shards[after.addr_to_shard_id[a] as int].holds(a) by {
            assert(before.addr_to_shard_id.contains_key(a));
            let home = before.addr_to_shard_id[a] as int;
            assert(before.shards[home].holds(a));
        }
        assert forall|i: int| 0 <= i < chain.shards.len() implies {
            let old_shard = chain.shards[i];
            let new_shard = #[trigger] after.shards[i];
            &&& new_shard.id == old_shard.id
            &&& new_shard.blocks == old_shard.blocks
            &&& new_shard.states == old_shard.states
            &&& new_shard.accounts == old_shard.accounts
            &&& new_shard.moving_accounts == old_shard.moving_accounts
            &&& new_shard.receipts == old_shard.receipts
            &&& new_shard.used_receipts == old_shard.used_receipts
            &&& new_shard.account_nonce == old_shard.account_nonce
        } by {
            let mid = before.shards[i];
            assert(mid.id == chain.shards[i].id);
        }
    } else {
        assert forall|i: int| 0 <= i < chain.shards.len() implies {
            let old_shard = chain.shards[i];
            let new_shard = #[trigger] chain.shards[i];
            new_shard.id == old_shard.id
        } by {}
    }
}

/// A slot keeps every user placed.
pub proof fn lemma_step_keeps_placed(chain: ShardedBlockchainView, user_num: int)
    requires
        chain.wf(),
        users_are_placed(chain, user_num),
    ensures
        users_are_placed(chain.step(), user_num),
{
    let after = chain.step();
    assert forall|a: Address| a < user_num implies #[trigger] after.addr_to_shard_id.contains_key(a)
        && after.shards[after.addr_to_shard_id[a] as int].holds(a) by {
        assert(chain.addr_to_shard_id.contains_key(a));
        let home = chain.addr_to_shard_id[a] as int;
        assert(chain.shards[home].holds(a));
        lemma_process_slot(chain.shards[home]);
        assert(after.shards[home] == chain.shards[home].process_slot());
    }
}

impl Environment {
    /// Makes the transactions of the slot. A decision for a shard to live
    /// on is taken for every user beforehand. Then each user in turn
    /// takes in its confirmations, acts on its queues, on its decision and
    /// on its edges.
    pub fn generate_transactions_per_slot(&mut self) -> (out: Vec<TransactionAndReceipt>)
        requires
            old(self).wf(),
            old(self)@.blockchain.slot < usize::MAX,
        ensures
            exists|decisions: Seq<Decision>, choices: Seq<Choices>| #[trigger]
                has_generated(old(self)@, decisions, choices, final(self)@, entries_view(out@)),
            final(self)@.wf_during_slot(),
            same_ledgers(old(self)@.blockchain, final(self)@.blockchain),
            can_be_broadcast(entries_view(out@)),
            final(self)@.users.len() == old(self)@.users.len(),
            final(self)@.user_graph == old(self)@.user_graph,
            final(self)@.user_num_mem == old(self)@.user_num_mem,
            final(self)@.mempool_tx_mem == old(self)@.mempool_tx_mem,
            final(self)@.user_num == old(self)@.user_num,
    {
        let ghost start = self@;
        let mut transactions: Vec<TransactionAndReceipt> = Vec::new();
        let precomputed_next_shard_ids_and_reduction = self.get_user_next_shard_ids_and_reduction();
        let mut from: usize = 0;
        let ghost decisions = precomputed_next_shard_ids_and_reduction@;
        let ghost mut choices: Seq<Choices> = Seq::empty();
        proof {
            assert(entries_view(transactions@) =~= Seq::empty());
            lemma_same_ledgers_reflexive(start.blockchain);
        }
        while from < self.users.len()
            invariant
                from <= self.users.len(),
                decisions == precomputed_next_shard_ids_and_reduction@,
                choices.len() == from,
                forall|u: int|
                    0 <= u < from ==> (#[trigger] choices[u]).order.to_multiset() == places(
                        start.user_graph.edges[u].len(),
                    ).to_multiset() && choices[u].draws.len() == choices[u].order.len(),
                self@ == start.turns(decisions, choices, from as int).environment,
                entries_view(transactions@) == start.turns(
                    decisions,
                    choices,
                    from as int,
                ).transactions,
                self@.fits_together(),
                self@.blockchain.slot < usize::MAX,
                same_ledgers(start.blockchain, self@.blockchain),
                self@.users.len() == start.users.len(),
                self@.user_graph == start.user_graph,
                self@.user_num_mem == start.user_num_mem,
                self@.mempool_tx_mem == start.mempool_tx_mem,
                self@.user_num == start.user_num,
                precomputed_next_shard_ids_and_reduction.len() == start.users.len(),
                forall|u: int|
                    0 <= u < precomputed_next_shard_ids_and_reduction.len() ==> (
                    #[trigger] precomputed_next_shard_ids_and_reduction[u]).0 < SHARD_NUM,
                forall|u: int| 0 <= u < from ==> #[trigger] self@.nonces_in_step(u, true),
                forall|u: int|
                    from <= u < self@.users.len() ==> #[trigger] self@.nonces_in_step(u, false),
                can_be_broadcast(entries_view(transactions@)),
            decreases self.users.len() - from,
        {
            let ghost at_turn = self@;
            proof {
                assert(at_turn.nonces_in_step(from as int, false));
            }
            self.reconcile_confirmations(from);
            let ghost reconciled = self@;
            proof {
                lemma_same_ledgers_transitive(
                    start.blockchain,
                    at_turn.blockchain,
                    reconciled.blockchain,
                );
                assert(reconciled.nonces_in_step(from as int, true));
            }
            let mut pending = self.get_pending_transactions_per_slot(from);
            let ghost drained = self@;
            let mut movement = self.generate_movement_transactions_per_slot(
                from,
                &precomputed_next_shard_ids_and_reduction,
            );
            let ghost moved = self@;
            let mut transfers = self.generate_transfer_transactions_per_slot(from);
            proof {
                let decision = decisions[from as int];
                let chain = reconciled.blockchain;
                let first = reconciled.users[from as int].drain(chain, SHARD_NUM as int);
                let move_draw = choose|draw: u32| #[trigger]
                    has_emitted(
                        drained,
                        from as int,
                        drained.users[from as int].move_out(drained.blockchain, decision, draw),
                        moved,
                        entries_view(movement@),
                    );
                let second = drained.users[from as int].move_out(
                    drained.blockchain,
                    decision,
                    move_draw,
                );
                let (order, draws) = choose|order: Seq<usize>, draws: Seq<u32>|
                    {
                        &&& order.to_multiset() == places(
                            moved.user_graph.edges[from as int].len(),
                        ).to_multiset()
                        &&& draws.len() == order.len()
                        &&& #[trigger] has_emitted(
                            moved,
                            from as int,
                            moved.users[from as int].transfer_all(
                                moved.blockchain,
                                moved.user_graph.edges[from as int],
                                order,
                                draws,
                            ),
                            self@,
                            entries_view(transfers@),
                        )
                    };
                let third = moved.users[from as int].transfer_all(
                    moved.blockchain,
                    moved.user_graph.edges[from as int],
                    order,
                    draws,
                );
                let picked = Choices { move_draw, order, draws };
                assert(drained.users[from as int] == first.user);
                assert(moved.users[from as int] == second.user);
                assert(self@.users =~= reconciled.users.update(from as int, third.user));
                assert(self@ == reconciled.with_user(from as int, third.user));
                let step = at_turn.turn(from as int, decision, picked);
                assert(step.environment == self@);
                assert(step.transactions == entries_view(pending@) + entries_view(movement@)
                    + entries_view(transfers@));
                lemma_turns_push(start, decisions, choices, picked, from as int);
                let grown = choices.push(picked);
                assert(grown[from as int] == picked);
                assert(start.turns(decisions, grown, from + 1).environment == self@);
                assert(start.turns(decisions, grown, from + 1).transactions =~= entries_view(
                    transactions@,
                ) + (entries_view(pending@) + entries_view(movement@) + entries_view(transfers@)));
                assert forall|u: int| 0 <= u < from + 1
                    implies (#[trigger] grown[u]).order.to_multiset()
                    == places(start.user_graph.edges[u].len()).to_multiset()
                    && grown[u].draws.len() == grown[u].order.len() by {
                    if u < from {
                        assert(grown[u] == choices[u]);
                    }
                }
                choices = grown;
                let all = entries_view(transactions@);
                let one = entries_view(pending@);
                let two = entries_view(movement@);
                let three = entries_view(transfers@);
                lemma_can_be_broadcast_add(all, one);
                lemma_can_be_broadcast_add(all + one, two);
                lemma_can_be_broadcast_add(all + one + two, three);
                assert(entries_view(transactions@ + pending@ + movement@ + transfers@) =~= all + one
                    + two + three);
                assert forall|u: int| 0 <= u < self@.users.len() && u != from implies (
                #[trigger] self@.users[u]) == at_turn.users[u] by {
                    assert(reconciled.users[u] == at_turn.users[u]);
                    assert(drained.users[u] == reconciled.users[u]);
                    assert(moved.users[u] == drained.users[u]);
                    assert(self@.users[u] == moved.users[u]);
                }
                assert forall|u: int| 0 <= u < from + 1 implies #[trigger] self@.nonces_in_step(
                    u,
                    true,
                ) by {
                    if u != from {
                        assert(at_turn.nonces_in_step(u, true));
                        assert(self@.users[u] == at_turn.users[u]);
                    }
                }
                assert forall|u: int| from + 1 <= u < self@.users.len()
                    implies #[trigger] self@.nonces_in_step(
                    u,
                    false,
                ) by {
                    assert(at_turn.nonces_in_step(u, false));
                    assert(self@.users[u] == at_turn.users[u]);
                }
            }
            transactions.append(&mut pending);
            transactions.append(&mut movement);
            transactions.append(&mut transfers);
            from = from + 1;
        }
        proof {
            assert(has_generated(start, decisions, choices, self@, entries_view(transactions@)));
        }
        transactions
    }

    /// Hands the transactions to the mempools of the shards that they are
    /// meant for.
    pub fn broadcast_transactions_per_slot(&mut self, transactions: Vec<TransactionAndReceipt>)
        requires
            old(self).blockchain.wf(),
            can_be_broadcast(entries_view(transactions@)),
        ensures
            final(self)@ == (EnvironmentView {
                blockchain: old(self)@.blockchain.broadcast(entries_view(transactions@)),
                ..old(self)@
            }),
            final(self).blockchain.wf(),
    {
        let ghost start = self@;
        let ghost all = entries_view(transactions@);
        let mut k: usize = 0;
        proof {
            assert(all.take(0) =~= Seq::empty());
        }
        while k < transactions.len()
            invariant
                k <= transactions.len(),
                all == entries_view(transactions@),
                can_be_broadcast(all),
                start.blockchain.wf(),
                self@.blockchain == start.blockchain.broadcast(all.take(k as int)),
                self.blockchain.wf(),
                self@.users == start.users,
                self@.user_graph == start.user_graph,
                self@.user_num_mem == start.user_num_mem,
                self@.mempool_tx_mem == start.mempool_tx_mem,
                self@.user_num == start.user_num,
            decreases transactions.len() - k,
        {
            let ghost before = self@.blockchain;
            let (transaction, receipt) = clone_entry(&transactions[k]);
            proof {
                assert(all.take(k + 1).drop_last() =~= all.take(k as int));
                assert(all.take(k + 1).last() == all[k as int]);
                assert(all[k as int] == entry_view(transactions@[k as int]));
                assert(all[k as int].0.shard_id < SHARD_NUM);
                assert(before.shards[transaction.shard_id as int].wf());
                assert(before.shards[transaction.shard_id as int].id == transaction.shard_id);
            }
            let ghost shard_id = transaction.shard_id as int;
            self.blockchain.shards[transaction.shard_id].push_transaction(transaction, receipt);
            proof {
                let after = self@.blockchain;
                assert(after.shards =~= before.shards.update(
                    shard_id,
                    before.shards[shard_id].push_transaction(all[k as int]),
                ));
                assert forall|i: int| 0 <= i < after.shards.len()
                    implies (#[trigger] after.shards[i]).id
                    == i && after.shards[i].wf() by {
                    if i != shard_id {
                        assert(after.shards[i] == before.shards[i]);
                    }
                }
                assert forall|a: Address| after.addr_to_shard_id.contains_key(a) implies (
                #[trigger] after.addr_to_shard_id[a]) < SHARD_NUM by {
                    assert(before.addr_to_shard_id.contains_key(a));
                }
            }
            k = k + 1;
        }
        proof {
            assert(all.take(k as int) =~= all);
        }
    }

    /// Advances the simulation by one slot: the users make their
    /// transactions, the transactions are broadcast, every shard makes
    /// its block, and the number of settled accounts and the size of the
    /// mempool of each shard are put on record.
    pub fn process(&mut self)
        requires
            old(self).wf(),
            old(self)@.blockchain.slot < usize::MAX,
        ensures
            exists|decisions: Seq<Decision>, choices: Seq<Choices>| #[trigger]
                has_advanced(old(self)@, decisions, choices, final(self)@),
            final(self).wf(),
            final(self)@.blockchain.slot == old(self)@.blockchain.slot + 1,
            final(self)@.users.len() == old(self)@.users.len(),
            final(self)@.user_graph == old(self)@.user_graph,
            final(self)@.user_num == old(self)@.user_num,
            final(self)@.user_num_mem.len() == old(self)@.user_num_mem.len() + 1,
            final(self)@.mempool_tx_mem.len() == old(self)@.mempool_tx_mem.len() + 1,
            final(self)@.user_num_mem.drop_last() == old(self)@.user_num_mem,
            final(self)@.mempool_tx_mem.drop_last() == old(self)@.mempool_tx_mem,
            final(self)@.user_num_mem.last().len() == SHARD_NUM,
            final(self)@.mempool_tx_mem.last().len() == SHARD_NUM,
            forall|i: int|
                0 <= i < SHARD_NUM ==> {
                    let before = old(self)@.blockchain.shards[i];
                    let after = #[trigger] final(self)@.blockchain.shards[i];
                    &&& after.blocks.len() == before.blocks.len() + 1
                    &&& after.blocks.drop_last() == before.blocks
                    &&& after.states.drop_last() == before.states
                    &&& after.mempool.len() == final(self)@.mempool_tx_mem.last()[i]
                    &&& forall|a: Address| before.nonce_of(a) <= #[trigger] after.nonce_of(a)
                },
    {
        broadcast use vstd::std_specs::hash::group_hash_axioms;

        let ghost start = self@;
        let transactions = self.generate_transactions_per_slot();
        let ghost generated = self@;
        let ghost (decisions, choices) = choose|decisions: Seq<Decision>,
            choices: Seq<Choices>| #[trigger]
            has_generated(start, decisions, choices, generated, entries_view(transactions@));
        self.broadcast_transactions_per_slot(transactions);
        let ghost sent = self@;
        proof {
            lemma_broadcast(
                generated.blockchain,
                entries_view(transactions@),
                generated.users.len() as int,
            );
            lemma_step_wf(sent.blockchain);
            lemma_step_keeps_placed(sent.blockchain, generated.users.len() as int);
            assert(sent.blockchain.advance(1) == sent.blockchain.step()) by {
                assert(sent.blockchain.advance(0) == sent.blockchain);
            }
        }
        self.blockchain.process_slots(self.blockchain.slot + 1);
        let ghost advanced = self@;
        proof {
            assert(advanced.users == generated.users);
            assert(advanced.user_graph == generated.user_graph);
            assert(advanced.blockchain == sent.blockchain.step());
            assert(users_are_placed(advanced.blockchain, advanced.users.len() as int));
            assert(advanced.blockchain.slot == start.blockchain.slot + 1);
            assert(advanced.blockchain.epoch <= advanced.blockchain.slot);
            assert(advanced.blockchain.wf());
            assert(advanced.user_graph.wf());
            assert forall|u: int| 0 <= u < advanced.users.len() implies (
            #[trigger] advanced.users[u]).wf() && advanced.users[u].account_addr == u by {
                assert(generated.users[u].wf());
            }
            assert(advanced.fits_together());
            assert forall|u: int| 0 <= u < advanced.users.len()
                implies #[trigger] advanced.nonces_in_step(
                u,
                false,
            ) by {
                assert(generated.nonces_in_step(u, true));
            }
            assert forall|i: int| 0 <= i < SHARD_NUM implies {
                let before = start.blockchain.shards[i];
                let after = #[trigger] advanced.blockchain.shards[i];
                &&& after.blocks.len() == before.blocks.len() + 1
                &&& after.blocks.drop_last() == before.blocks
                &&& after.states.drop_last() == before.states
                &&& forall|a: Address| before.nonce_of(a) <= #[trigger] after.nonce_of(a)
            } by {
                let before = start.blockchain.shards[i];
                let made = generated.blockchain.shards[i];
                let filled = sent.blockchain.shards[i];
                assert(same_ledger(before, made));
                assert(filled.blocks == made.blocks);
                assert(filled.account_nonce == made.account_nonce);
                assert(filled.wf());
                lemma_process_slot(filled);
                assert(advanced.blockchain.shards[i] == filled.process_slot());
                assert forall|a: Address| before.nonce_of(a)
                    <= #[trigger] advanced.blockchain.shards[i].nonce_of(
                    a,
                ) by {
                    assert(before.nonce_of(a) == filled.nonce_of(a));
                }
            }
        }
        let mut account_num: Vec<usize> = Vec::new();
        let mut mempool_tx_num: Vec<usize> = Vec::new();
        let mut i: usize = 0;
        while i < self.blockchain.shards.len()
            invariant
                i <= self.blockchain.shards.len(),
                self@ == advanced,
                advanced.blockchain.shards.len() == SHARD_NUM,
                account_num.len() == i,
                mempool_tx_num.len() == i,
                forall|k: int|
                    0 <= k < i
                        ==> #[trigger] mempool_tx_num[k]
                        == advanced.blockchain.shards[k].mempool.len(),
                forall|k: int|
                    0 <= k < i
                        ==> #[trigger] account_num[k]
                        == advanced.blockchain.shards[k].accounts.len(),
            decreases self.blockchain.shards.len() - i,
        {
            account_num.push(self.blockchain.shards[i].accounts.len());
            mempool_tx_num.push(self.blockchain.shards[i].mempool.len());
            proof {
                assert(advanced.blockchain.shards[i as int].mempool == entries_view(
                    self.blockchain.shards[i as int].mempool@,
                ));
                assert(advanced.blockchain.shards[i as int].accounts
                    == self.blockchain.shards[i as int].accounts@);
            }
            i = i + 1;
        }
        proof {
            assert(record_view(self.user_num_mem@.push(account_num)) =~= record_view(
                self.user_num_mem@,
            ).push(account_num@));
            assert(record_view(self.mempool_tx_mem@.push(mempool_tx_num)) =~= record_view(
                self.mempool_tx_mem@,
            ).push(mempool_tx_num@));
            assert(record_view(self.user_num_mem@).push(account_num@).drop_last() =~= record_view(
                self.user_num_mem@,
            ));
            assert(record_view(self.mempool_tx_mem@).push(mempool_tx_num@).drop_last()
                =~= record_view(self.mempool_tx_mem@));
        }
        self.user_num_mem.push(account_num);
        self.mempool_tx_mem.push(mempool_tx_num);
        proof {
            let after = start.after_slot(decisions, choices);
            let chain = advanced.blockchain;
            assert(after.blockchain == chain);
            assert(account_num@ =~= Seq::new(
                chain.shards.len(),
                |i: int| chain.shards[i].accounts.len() as usize,
            ));
            assert(mempool_tx_num@ =~= Seq::new(
                chain.shards.len(),
                |i: int| chain.shards[i].mempool.len() as usize,
            ));
            assert(self@ == after);
            assert(has_advanced(start, decisions, choices, self@));
            assert(self@.blockchain == advanced.blockchain);
            assert(self@.users == advanced.users);
            assert(self@.user_graph == advanced.user_graph);
            assert(self@.fits_together());
            assert forall|u: int| 0 <= u < self@.users.len()
                implies #[trigger] self@.nonces_in_step(
                u,
                false,
            ) by {
                assert(advanced.nonces_in_step(u, false));
            }
        }
    }
}

} // verus!
