use crate::confirmation::{lemma_pruned, lemma_settle, same_ledger, same_ledgers};
use crate::custom_types::Address;
use crate::emission::{can_be_broadcast, Emission};
use crate::environment::{Environment, EnvironmentView};
use crate::mempool::{entries_view, EntryView};
use crate::parameters::SHARD_NUM;
use crate::rng::{next_u32, shuffle};
use crate::strategy::{
    choose_shard, chosen_shard, decision_needs_draw, needs_draw, users_are_placed, Decision,
};
use crate::transaction::TransactionAndReceipt;
use crate::user::{User, UserView};
use crate::user_graph::FEE_CAP_LIMIT;
use vstd::prelude::*;

verus! {

/// The numbers below `count`, in order.
pub open spec fn places(count: nat) -> Seq<usize> {
    Seq::new(count, |i: int| i as usize)
}

impl EnvironmentView {
    /// The environment with `user` in the place of the user `from`.
    pub open spec fn with_user(self, from: int, user: UserView) -> EnvironmentView {
        EnvironmentView { users: self.users.update(from, user), ..self }
    }

    /// Whether the user `from` can make transactions: all fits together,
    /// the slot leaves room for a nonce, and the nonces of the user are
    /// within what the slot allows.
    pub open spec fn can_make_transactions(self, from: int) -> bool {
        &&& self.fits_together()
        &&& 0 <= from < self.users.len()
        &&& self.blockchain.slot < usize::MAX
        &&& self.users[from].nonces_within(self.blockchain.slot, true)
    }

    /// The environment after the confirmations of the user `from` have
    /// been taken in: its account is settled wherever a confirmed
    /// transaction took it in, and the user forgets what is confirmed.
    pub open spec fn reconciled(self, from: int) -> EnvironmentView {
        let chain = self.blockchain.settle_all(
            from as usize,
            self.users[from].arrivals(self.blockchain, SHARD_NUM as int),
        );
        EnvironmentView {
            blockchain: chain,
            users: self.users.update(from, self.users[from].pruned(chain)),
            ..self
        }
    }

    /// The environment after the user `from` has emitted `emission`.
    pub open spec fn after_emission(self, from: int, emission: Emission) -> EnvironmentView {
        self.with_user(from, emission.user)
    }
}

/// Whether `after` and `out` are what is left and what is broadcast once
/// the user `from` of `before` has emitted `emission`.
pub open spec fn has_emitted(
    before: EnvironmentView,
    from: int,
    emission: Emission,
    after: EnvironmentView,
    out: Seq<EntryView>,
) -> bool {
    after == before.after_emission(from, emission) && out == emission.transactions
}

/// Whether `decision` is what the user `u` decides for some number drawn.
pub open spec fn is_decision_of(environment: EnvironmentView, u: int, decision: Decision) -> bool {
    exists|draw: u32|
        decision == #[trigger] chosen_shard(
            environment.blockchain,
            environment.user_graph,
            u as usize,
            environment.users[u].user_type,
            draw,
        )
}

/// A user of an environment in which all fits together can act on its
/// chain, if its nonces are within what the slot allows.
pub proof fn lemma_can_act(environment: EnvironmentView, from: int)
    requires
        environment.can_make_transactions(from),
    ensures
        environment.users[from].can_act_on(environment.blockchain),
        environment.users[from].account_addr == from,
        forall|k: int|
            0 <= k < environment.user_graph.edges[from].len()
                ==> environment.blockchain.addr_to_shard_id.contains_key(
                (#[trigger] environment.user_graph.edges[from][k]).to,
            ) && environment.user_graph.edges[from][k].fee_cap <= FEE_CAP_LIMIT,
{
    assert(environment.users[from].wf());
    assert(environment.blockchain.addr_to_shard_id.contains_key(from as usize));
    assert forall|k: int| 0 <= k < environment.user_graph.edges[from].len()
        implies environment.blockchain.addr_to_shard_id.contains_key(
        (#[trigger] environment.user_graph.edges[from][k]).to,
    ) && environment.user_graph.edges[from][k].fee_cap <= FEE_CAP_LIMIT by {
        let edge = environment.user_graph.edges[from][k];
        assert(edge.to < environment.user_graph.nodes.len());
        assert(environment.blockchain.addr_to_shard_id.contains_key(edge.to));
    }
}

/// Putting a user that can act on the chain, with the same address, in
/// the place of a user keeps the environment fit.
pub proof fn lemma_with_user(environment: EnvironmentView, from: int, user: UserView)
    requires
        environment.fits_together(),
        0 <= from < environment.users.len(),
        environment.blockchain.slot < usize::MAX,
        user.can_act_on(environment.blockchain),
        user.account_addr == from,
    ensures
        environment.with_user(from, user).can_make_transactions(from),
        forall|u: int|
            0 <= u < environment.users.len() && u != from ==> environment.with_user(
                from,
                user,
            ).nonces_in_step(u, true) == environment.nonces_in_step(u, true)
                && environment.with_user(from, user).nonces_in_step(u, false)
                == environment.nonces_in_step(u, false),
{
    let after = environment.with_user(from, user);
    assert forall|u: int| 0 <= u < after.users.len() implies (#[trigger] after.users[u]).wf()
        && after.users[u].account_addr == u by {
        if u != from {
            assert(environment.users[u].wf());
        }
    }
}

impl User {
    /// The shard on which the user expects to pay the least, as its
    /// strategy has it, and the fee cap for the move there; `draw` is the
    /// number that a user of weighted random strategy goes by.
    pub fn pick_low_fee_shard_id_and_movement_fee_cap(
        &self,
        environment: &Environment,
        draw: u32,
    ) -> (decision: Decision)
        requires
            environment@.fits_together(),
            self.account_addr < environment@.users.len(),
        ensures
            decision == chosen_shard(
                environment@.blockchain,
                environment@.user_graph,
                self.account_addr,
                self.user_type,
                draw,
            ),
            decision.0 < SHARD_NUM,
    {
        choose_shard(
            &environment.blockchain,
            &environment.user_graph,
            self.account_addr,
            self.user_type,
            draw,
        )
    }
}

impl User {
    /// Whether the decision of the user goes by a number drawn.
    pub fn wants_draw(&self, environment: &Environment) -> (wanted: bool)
        requires
            environment@.fits_together(),
            self.account_addr < environment@.users.len(),
        ensures
            wanted == decision_needs_draw(
                environment@.blockchain,
                environment@.user_graph,
                self.account_addr,
                self.user_type,
            ),
    {
        needs_draw(
            &environment.blockchain,
            &environment.user_graph,
            self.account_addr,
            self.user_type,
        )
    }
}

impl Environment {
    /// The decision of every user for a shard to live on. A user whose
    /// decision goes by a number draws it from the generator.
    pub fn get_user_next_shard_ids_and_reduction(&mut self) -> (decisions: Vec<Decision>)
        requires
            old(self)@.fits_together(),
        ensures
            final(self)@ == old(self)@,
            decisions.len() == old(self)@.users.len(),
            forall|u: int|
                0 <= u < decisions.len() ==> (#[trigger] decisions[u]).0 < SHARD_NUM
                    && is_decision_of(old(self)@, u, decisions[u]),
    {
        let ghost start = self@;
        let mut decisions: Vec<Decision> = Vec::new();
        let mut u: usize = 0;
        while u < self.users.len()
            invariant
                u <= self.users.len(),
                self@ == start,
                start.fits_together(),
                decisions.len() == u,
                forall|v: int|
                    0 <= v < u ==> (#[trigger] decisions[v]).0 < SHARD_NUM && is_decision_of(
                        start,
                        v,
                        decisions[v],
                    ),
            decreases self.users.len() - u,
        {
            proof {
                assert(start.users[u as int].wf() && start.users[u as int].account_addr == u);
                assert(self@.users[u as int] == self.users[u as int]@);
            }
            let draw = if self.users[u].wants_draw(self) {
                next_u32(&mut self.rng)
            } else {
                0
            };
            proof {
                assert(self@.users[u as int] == self.users[u as int]@);
            }
            let decision = self.users[u].pick_low_fee_shard_id_and_movement_fee_cap(self, draw);
            proof {
                assert(decision == chosen_shard(
                    start.blockchain,
                    start.user_graph,
                    u,
                    start.users[u as int].user_type,
                    draw,
                ));
                assert((u as int) as usize == u);
                assert(decision == chosen_shard(
                    start.blockchain,
                    start.user_graph,
                    (u as int) as usize,
                    start.users[u as int].user_type,
                    draw,
                ));
                assert(is_decision_of(start, u as int, decision));
            }
            decisions.push(decision);
            u = u + 1;
        }
        decisions
    }

    /// Takes in the confirmations of the user `from`: settles its account
    /// wherever a confirmed transaction took it in, and lets the user
    /// forget what is confirmed.
    pub fn reconcile_confirmations(&mut self, from: Address)
        requires
            old(self)@.fits_together(),
            from < old(self)@.users.len(),
            old(self)@.nonces_in_step(from as int, false),
        ensures
            final(self)@ == old(self)@.reconciled(from as int),
            final(self)@.fits_together(),
            final(self)@.nonces_in_step(from as int, false),
            final(self)@.nonces_in_step(from as int, true),
            same_ledgers(old(self)@.blockchain, final(self)@.blockchain),
            forall|u: int|
                0 <= u < old(self)@.users.len() && u != from ==> (#[trigger] final(self)@.users[u])
                    == old(self)@.users[u],
    {
        let ghost start = self@;
        let ghost user = start.users[from as int];
        proof {
            assert(user.wf() && user.account_addr == from);
            assert(self.users[from as int]@ == user);
            assert(start.blockchain.addr_to_shard_id.contains_key(from));
        }
        let arrivals = self.users[from].confirmed_arrivals(&self.blockchain);
        let mut k: usize = 0;
        proof {
            assert(arrivals@.take(0) =~= Seq::empty());
            assert forall|i: int| 0 <= i < start.blockchain.shards.len() implies same_ledger(
                start.blockchain.shards[i],
                #[trigger] start.blockchain.shards[i],
            ) by {}
        }
        while k < arrivals.len()
            invariant
                k <= arrivals.len(),
                forall|j: int| 0 <= j < arrivals.len() ==> (#[trigger] arrivals[j]) < SHARD_NUM,
                self.blockchain.wf(),
                start.blockchain.wf(),
                users_are_placed(self@.blockchain, start.users.len() as int),
                self@.blockchain.addr_to_shard_id.contains_key(from),
                self@.blockchain == start.blockchain.settle_all(from, arrivals@.take(k as int)),
                same_ledgers(start.blockchain, self@.blockchain),
                self@.users == start.users,
                self@.user_graph == start.user_graph,
                self@.user_num_mem == start.user_num_mem,
                self@.mempool_tx_mem == start.mempool_tx_mem,
                self@.user_num == start.user_num,
            decreases arrivals.len() - k,
        {
            let ghost before = self@.blockchain;
            proof {
                assert(arrivals@.take(k + 1).drop_last() =~= arrivals@.take(k as int));
                assert(arrivals@.take(k + 1).last() == arrivals@[k as int]);
                lemma_settle(before, from, arrivals[k as int] as int, start.users.len() as int);
            }
            self.blockchain.settle_account(from, arrivals[k]);
            proof {
                let after = self@.blockchain;
                assert forall|i: int| 0 <= i < start.blockchain.shards.len() implies same_ledger(
                    start.blockchain.shards[i],
                    #[trigger] after.shards[i],
                ) by {
                    assert(same_ledger(start.blockchain.shards[i], before.shards[i]));
                    assert(same_ledger(before.shards[i], after.shards[i]));
                }
            }
            k = k + 1;
        }
        proof {
            assert(arrivals@.take(k as int) =~= arrivals@);
        }
        let ghost chain = self@.blockchain;
        self.users[from].prune_confirmed(&self.blockchain);
        proof {
            lemma_pruned(user, chain, chain.slot);
            let after = start.reconciled(from as int);
            assert(self@.users =~= after.users);
            assert forall|u: int| 0 <= u < after.users.len()
                implies (#[trigger] after.users[u]).wf()
                && after.users[u].account_addr == u by {
                if u != from {
                    assert(start.users[u].wf());
                }
            }
        }
    }

    /// Lets the user `from` act on the heads of its queues, and gives the
    /// transactions to broadcast.
    pub fn get_pending_transactions_per_slot(&mut self, from: Address) -> (out: Vec<
        TransactionAndReceipt,
    >)
        requires
            old(self)@.can_make_transactions(from as int),
        ensures
            final(self)@ == old(self)@.after_emission(
                from as int,
                old(self)@.users[from as int].drain(old(self)@.blockchain, SHARD_NUM as int),
            ),
            entries_view(out@) == old(self)@.users[from as int].drain(
                old(self)@.blockchain,
                SHARD_NUM as int,
            ).transactions,
            final(self)@.can_make_transactions(from as int),
            can_be_broadcast(entries_view(out@)),
    {
        let ghost start = self@;
        proof {
            lemma_can_act(start, from as int);
            assert(self.users[from as int]@ == start.users[from as int]);
        }
        let out = self.users[from].take_all_pending(&self.blockchain);
        proof {
            let user = self.users[from as int]@;
            assert(self@.users =~= start.users.update(from as int, user));
            lemma_with_user(start, from as int, user);
        }
        out
    }

    /// Lets the user `from` act on its decision for a shard to live on,
    /// if a number from the generator says that a move is due; gives the
    /// transaction to broadcast, if there is one.
    pub fn generate_movement_transactions_per_slot(
        &mut self,
        from: Address,
        next_shard_ids: &Vec<Decision>,
    ) -> (out: Vec<TransactionAndReceipt>)
        requires
            old(self)@.can_make_transactions(from as int),
            from < next_shard_ids.len(),
            next_shard_ids[from as int].0 < SHARD_NUM,
        ensures
            exists|draw: u32| #[trigger]
                has_emitted(
                    old(self)@,
                    from as int,
                    old(self)@.users[from as int].move_out(
                        old(self)@.blockchain,
                        next_shard_ids[from as int],
                        draw,
                    ),
                    final(self)@,
                    entries_view(out@),
                ),
            final(self)@.can_make_transactions(from as int),
            final(self)@.blockchain == old(self)@.blockchain,
            forall|u: int|
                0 <= u < old(self)@.users.len() && u != from ==> (#[trigger] final(self)@.users[u])
                    == old(self)@.users[u],
            can_be_broadcast(entries_view(out@)),
    {
        let ghost start = self@;
        proof {
            lemma_can_act(start, from as int);
            assert(self.users[from as int]@ == start.users[from as int]);
        }
        let draw = next_u32(&mut self.rng);
        let out = self.users[from].emit_movement(&self.blockchain, next_shard_ids[from], draw);
        proof {
            let user = self.users[from as int]@;
            assert(self@.users =~= start.users.update(from as int, user));
            lemma_with_user(start, from as int, user);
            let emission = start.users[from as int].move_out(
                start.blockchain,
                next_shard_ids[from as int],
                draw,
            );
            assert(has_emitted(start, from as int, emission, self@, entries_view(out@)));
        }
        out
    }

    /// Lets the user `from` act on its edges, in an order that the
    /// generator shuffles, each with a number from the generator; gives
    /// the transactions to broadcast.
    pub fn generate_transfer_transactions_per_slot(&mut self, from: Address) -> (out: Vec<
        TransactionAndReceipt,
    >)
        requires
            old(self)@.can_make_transactions(from as int),
        ensures
            exists|order: Seq<usize>, draws: Seq<u32>|
                {
                    &&& order.to_multiset() == places(
                        old(self)@.user_graph.edges[from as int].len(),
                    ).to_multiset()
                    &&& draws.len() == order.len()
                    &&& #[trigger] has_emitted(
                        old(self)@,
                        from as int,
                        old(self)@.users[from as int].transfer_all(
                            old(self)@.blockchain,
                            old(self)@.user_graph.edges[from as int],
                            order,
                            draws,
                        ),
                        final(self)@,
                        entries_view(out@),
                    )
                },
            final(self)@.can_make_transactions(from as int),
            final(self)@.blockchain == old(self)@.blockchain,
            forall|u: int|
                0 <= u < old(self)@.users.len() && u != from ==> (#[trigger] final(self)@.users[u])
                    == old(self)@.users[u],
            can_be_broadcast(entries_view(out@)),
    {
        broadcast use vstd::seq_lib::group_to_multiset_ensures;

        let ghost start = self@;
        let ghost row = start.user_graph.edges[from as int];
        proof {
            lemma_can_act(start, from as int);
            assert(self.users[from as int]@ == start.users[from as int]);
            assert(self.user_graph.edges[from as int]@ == row);
        }
        let count = self.user_graph.edges[from].len();
        let mut order: Vec<usize> = Vec::new();
        let mut i: usize = 0;
        while i < count
            invariant
                i <= count,
                order.len() == i,
                forall|k: int| 0 <= k < i ==> #[trigger] order[k] == k,
            decreases count - i,
        {
            order.push(i);
            i = i + 1;
        }
        proof {
            assert(order@ =~= places(count as nat));
        }
        shuffle(&mut order, &mut self.rng);
        proof {
            let straight = places(count as nat);
            assert(order@.len() == order@.to_multiset().len());
            assert(straight.len() == straight.to_multiset().len());
            assert forall|k: int| 0 <= k < order.len() implies (#[trigger] order[k]) < count by {
                assert(order@.contains(order@[k]));
                assert(order@.to_multiset().count(order@[k]) > 0);
                assert(straight.contains(order@[k]));
                let j = choose|j: int| 0 <= j < straight.len() && straight[j] == order@[k];
                assert(straight[j] == j);
            }
        }
        let mut draws: Vec<u32> = Vec::new();
        let mut j: usize = 0;
        while j < count
            invariant
                j <= count,
                draws.len() == j,
                self@ == start,
                self.users[from as int]@ == start.users[from as int],
                self.user_graph.edges[from as int]@ == row,
                from < self.users.len(),
                from < self.user_graph.edges.len(),
            decreases count - j,
        {
            draws.push(next_u32(&mut self.rng));
            j = j + 1;
        }
        let out = self.users[from].emit_transfers(
            &self.blockchain,
            &self.user_graph.edges[from],
            &order,
            &draws,
        );
        proof {
            let user = self.users[from as int]@;
            assert(self@.users =~= start.users.update(from as int, user));
            lemma_with_user(start, from as int, user);
            let emission = start.users[from as int].transfer_all(
                start.blockchain,
                row,
                order@,
                draws@,
            );
            assert(has_emitted(start, from as int, emission, self@, entries_view(out@)));
        }
        out
    }
}

} // verus!
