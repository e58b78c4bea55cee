use crate::account::Account;
use crate::custom_types::{Address, GasPrice};
use crate::parameters::{DEFAULT_USER_NUM, POPULAR_USER_ADDRESS, RAND_SEED, SHARD_NUM};
use crate::rng::seeded_rng;
use crate::shard::ShardView;
use crate::shard_laws::lemma_wf_with_same_chain;
use crate::sharded_blockchain::{ShardedBlockchain, ShardedBlockchainView};
use crate::strategy::users_are_placed;
use crate::user::{StrategyType, User, UserView};
use crate::user_graph::{has_target, target_index, UserGraph, UserGraphView};
use rand_xorshift::XorShiftRng;
use vstd::prelude::*;

verus! {

/// The chain and its users.
pub struct Environment {
    pub blockchain: ShardedBlockchain,
    pub user_graph: UserGraph,
    pub users: Vec<User>,
    /// For each slot, the number of settled accounts on each shard.
    pub user_num_mem: Vec<Vec<usize>>,
    /// For each slot, the size of the mempool of each shard.
    pub mempool_tx_mem: Vec<Vec<usize>>,
    /// How many users the graph is to have.
    pub user_num: usize,
    /// The one generator that every random choice is drawn from.
    pub rng: XorShiftRng,
}

/// What an `Environment` holds, as mathematical values; the generator is
/// left out.
pub struct EnvironmentView {
    pub blockchain: ShardedBlockchainView,
    pub user_graph: UserGraphView,
    pub users: Seq<UserView>,
    pub user_num_mem: Seq<Seq<usize>>,
    pub mempool_tx_mem: Seq<Seq<usize>>,
    pub user_num: usize,
}

/// The views of a sequence of users.
pub open spec fn users_view(users: Seq<User>) -> Seq<UserView> {
    users.map_values(|u: User| u@)
}

/// The views of the rows of a record.
pub open spec fn record_view(record: Seq<Vec<usize>>) -> Seq<Seq<usize>> {
    record.map_values(|row: Vec<usize>| row@)
}

impl View for Environment {
    type V = EnvironmentView;

    open spec fn view(&self) -> EnvironmentView {
        EnvironmentView {
            blockchain: self.blockchain@,
            user_graph: self.user_graph@,
            users: users_view(self.users@),
            user_num_mem: record_view(self.user_num_mem@),
            mempool_tx_mem: record_view(self.mempool_tx_mem@),
            user_num: self.user_num,
        }
    }
}

/// How the strategies are dealt out: the users below `minimum_bound` take
/// the cheapest shard, those below `weighted_random_bound` draw a shard,
/// those below `decreasing_minimum_bound` take the cheapest shard whose
/// fee is not rising, and the rest stay. A popular user, if there is one,
/// has the address `POPULAR_USER_ADDRESS` and its own rule.
#[derive(Clone, Copy, Debug)]
pub struct StrategyPlan {
    pub minimum_bound: usize,
    pub weighted_random_bound: usize,
    pub decreasing_minimum_bound: usize,
    pub popular_user_exists: bool,
    pub popular_user_is_switcher: bool,
}

impl StrategyPlan {
    /// The strategy of the user `addr`.
    pub open spec fn spec_strategy_for(self, addr: Address) -> StrategyType {
        if self.popular_user_exists && addr == POPULAR_USER_ADDRESS {
            if self.popular_user_is_switcher {
                StrategyType::Minimum
            } else {
                StrategyType::NonSwitcher
            }
        } else if addr < self.minimum_bound {
            StrategyType::Minimum
        } else if addr < self.weighted_random_bound {
            StrategyType::WeightedRandom
        } else if addr < self.decreasing_minimum_bound {
            StrategyType::DecreasingMinimum
        } else {
            StrategyType::NonSwitcher
        }
    }

    /// The strategy of the user `addr`.
    pub fn strategy_for(&self, addr: Address) -> (strategy: StrategyType)
        ensures
            strategy == self.spec_strategy_for(addr),
    {
        if self.popular_user_exists && addr == POPULAR_USER_ADDRESS {
            if self.popular_user_is_switcher {
                StrategyType::Minimum
            } else {
                StrategyType::NonSwitcher
            }
        } else if addr < self.minimum_bound {
            StrategyType::Minimum
        } else if addr < self.weighted_random_bound {
            StrategyType::WeightedRandom
        } else if addr < self.decreasing_minimum_bound {
            StrategyType::DecreasingMinimum
        } else {
            StrategyType::NonSwitcher
        }
    }
}

impl ShardedBlockchainView {
    /// The chain after the account `addr` has been deployed: it lives on
    /// the shard that its address falls to, where it is created unless it
    /// is there already, and the index names that shard.
    pub open spec fn deploy_account(self, addr: Address) -> ShardedBlockchainView {
        let shard_id = addr as int % self.shards.len() as int;
        let shard = self.shards[shard_id];
        let settled = if shard.accounts.contains_key(addr) {
            shard
        } else {
            ShardView {
                accounts: shard.accounts.insert(
                    addr,
                    Account {
                        addr,
                        shard_id: shard_id as usize,
                        balance: Account::initial_balance(),
                    },
                ),
                ..shard
            }
        };
        ShardedBlockchainView {
            shards: self.shards.update(shard_id, settled),
            addr_to_shard_id: self.addr_to_shard_id.insert(addr, shard_id as usize),
            account_num: (self.account_num + 1) as usize,
            ..self
        }
    }

    /// The chain after the accounts below `upto` have been deployed, in
    /// the order of their addresses.
    pub open spec fn deploy_accounts(self, upto: nat) -> ShardedBlockchainView
        decreases upto,
    {
        if upto == 0 {
            self
        } else {
            self.deploy_accounts((upto - 1) as nat).deploy_account((upto - 1) as usize)
        }
    }
}

impl EnvironmentView {
    /// The environment before it is set up: the chain at genesis, and
    /// neither graph nor users.
    pub open spec fn fresh() -> EnvironmentView {
        EnvironmentView {
            blockchain: ShardedBlockchainView::genesis(),
            user_graph: UserGraphView::with_nodes(0),
            users: Seq::empty(),
            user_num_mem: Seq::empty(),
            mempool_tx_mem: Seq::empty(),
            user_num: DEFAULT_USER_NUM,
        }
    }

    /// The environment after it has been set up with `graph`: an account
    /// is deployed for every node, and there is a user for it with the
    /// strategy that `plan` deals it and nothing under way.
    pub open spec fn after_setup(self, graph: UserGraphView, plan: StrategyPlan)
        -> EnvironmentView {
        EnvironmentView {
            blockchain: self.blockchain.deploy_accounts(graph.nodes.len()),
            user_graph: graph,
            users: Seq::new(
                graph.nodes.len(),
                |a: int| UserView::fresh(a as usize, plan.spec_strategy_for(a as usize)),
            ),
            ..self
        }
    }

    /// Whether the user `u` has used no more nonces on any shard than the
    /// slots of the chain allow; `during` a slot one more where a
    /// transaction is under way.
    pub open spec fn nonces_in_step(self, u: int, during: bool) -> bool {
        self.users[u].nonces_within(self.blockchain.slot, during)
    }

    /// Whether chain, graph and users fit together: chain and graph are
    /// well formed; there is one well-formed user for each node of the
    /// graph, known by its address; every user is placed; and the epoch
    /// has not run ahead of the slot.
    pub open spec fn fits_together(self) -> bool {
        &&& self.blockchain.wf()
        &&& self.user_graph.wf()
        &&& self.users.len() == self.user_graph.nodes.len()
        &&& forall|u: int|
            0 <= u < self.users.len() ==> (#[trigger] self.users[u]).wf()
                && self.users[u].account_addr == u
        &&& users_are_placed(self.blockchain, self.users.len() as int)
        &&& self.blockchain.epoch <= self.blockchain.slot
    }

    /// Whether the environment is well formed at the start of a slot: all
    /// fits together, and no user has used more nonces on a shard than
    /// slots have passed.
    pub open spec fn wf(self) -> bool {
        &&& self.fits_together()
        &&& forall|u: int| 0 <= u < self.users.len() ==> #[trigger] self.nonces_in_step(u, false)
    }

    /// Whether the environment is well formed while the transactions of a
    /// slot are made: all fits together, and no user has used more nonces
    /// on a shard than slots have begun.
    pub open spec fn wf_during_slot(self) -> bool {
        &&& self.fits_together()
        &&& forall|u: int| 0 <= u < self.users.len() ==> #[trigger] self.nonces_in_step(u, true)
    }
}

impl Environment {
    /// Whether the environment is well formed at the start of a slot.
    pub open spec fn wf(&self) -> bool {
        self@.wf()
    }

    pub fn new() -> (environment: Self)
        ensures
            environment@ == EnvironmentView::fresh(),
            environment.wf(),
    {
        let environment = Self {
            blockchain: ShardedBlockchain::new(),
            user_graph: UserGraph::new(),
            users: Vec::new(),
            user_num_mem: Vec::new(),
            mempool_tx_mem: Vec::new(),
            user_num: DEFAULT_USER_NUM,
            rng: seeded_rng(RAND_SEED),
        };
        proof {
            assert(environment@.users =~= Seq::empty());
            assert(environment@.user_num_mem =~= Seq::empty());
            assert(environment@.mempool_tx_mem =~= Seq::empty());
        }
        environment
    }

    /// Deploys the account `addr`.
    pub fn deploy_account(&mut self, addr: Address)
        requires
            old(self).blockchain.wf(),
            old(self).blockchain.account_num < usize::MAX,
        ensures
            final(self)@ == (EnvironmentView {
                blockchain: old(self)@.blockchain.deploy_account(addr),
                ..old(self)@
            }),
            final(self).blockchain.wf(),
    {
        broadcast use vstd::std_specs::hash::group_hash_axioms;

        let ghost start = self@.blockchain;
        let shard_id = addr % self.blockchain.shards.len();
        let account = Account::new(addr, shard_id);
        self.blockchain.account_num = self.blockchain.account_num + 1;
        self.blockchain.addr_to_shard_id.insert(addr, shard_id);
        let ghost shard = self.blockchain.shards[shard_id as int]@;
        proof {
            assert(shard == start.shards[shard_id as int]);
            assert(shard.wf() && shard.id == shard_id);
        }
        if !self.blockchain.shards[shard_id].accounts.contains_key(&addr) {
            self.blockchain.shards[shard_id].accounts.insert(addr, account);
            proof {
                let settled = self.blockchain.shards[shard_id as int]@;
                assert(settled.accounts == shard.accounts.insert(addr, account));
                assert(settled.moving_accounts == shard.moving_accounts);
                assert(settled.id == shard.id);
                assert forall|a: Address| #[trigger]
                    settled.moving_accounts.contains_key(a)
                        implies settled.moving_accounts[a].shard_id
                    == settled.id by {
                    assert(shard.moving_accounts.contains_key(a));
                }
                assert forall|a: Address| #[trigger]
                    settled.accounts.contains_key(a) implies settled.accounts[a].shard_id
                    == settled.id by {
                    if a != addr {
                        assert(shard.accounts.contains_key(a));
                    }
                }
                assert forall|i: int| 0 <= i < settled.mempool.len() implies settled.accepts(
                    (#[trigger] settled.mempool[i]).0,
                ) by {
                    assert(shard.accepts(shard.mempool[i].0));
                }
                lemma_wf_with_same_chain(shard, settled);
            }
        }
        proof {
            let after = start.deploy_account(addr);
            assert(self@.blockchain.shards =~= after.shards);
            assert forall|i: int| 0 <= i < after.shards.len()
                implies (#[trigger] after.shards[i]).id
                == i && after.shards[i].wf() by {
                if i != shard_id {
                    assert(after.shards[i] == start.shards[i]);
                }
            }
            assert forall|a: Address| after.addr_to_shard_id.contains_key(a) implies (
            #[trigger] after.addr_to_shard_id[a]) < SHARD_NUM by {
                if a != addr {
                    assert(start.addr_to_shard_id.contains_key(a));
                }
            }
        }
    }

    /// Sets the environment up with `user_graph`: deploys an account for
    /// every node and makes a user for it, with the strategy that `plan`
    /// deals it.
    pub fn setup(&mut self, user_graph: UserGraph, plan: StrategyPlan)
        requires
            old(self).wf(),
            old(self)@.users.len() == 0,
            user_graph.wf(),
            old(self).blockchain.account_num + user_graph@.nodes.len() <= usize::MAX,
        ensures
            final(self)@ == old(self)@.after_setup(user_graph@, plan),
            final(self).wf(),
    {
        let ghost start = self@;
        let ghost graph = user_graph@;
        self.user_graph = user_graph;
        let user_num = self.user_graph.nodes.len();
        let mut addr: usize = 0;
        proof {
            assert(self@.users =~= Seq::empty());
        }
        while addr < user_num
            invariant
                addr <= user_num,
                user_num == graph.nodes.len(),
                graph.wf(),
                self@.blockchain.slot == start.blockchain.slot,
                self@.blockchain.epoch == start.blockchain.epoch,
                start.blockchain.epoch <= start.blockchain.slot,
                self@.user_graph == graph,
                self@.user_num_mem == start.user_num_mem,
                self@.mempool_tx_mem == start.mempool_tx_mem,
                self@.user_num == start.user_num,
                self@.blockchain == start.blockchain.deploy_accounts(addr as nat),
                self.blockchain.wf(),
                self.blockchain.account_num == start.blockchain.account_num + addr,
                start.blockchain.account_num + user_num <= usize::MAX,
                users_are_placed(self@.blockchain, addr as int),
                self@.users.len() == addr,
                forall|a: int|
                    0 <= a < addr ==> (#[trigger] self@.users[a]) == UserView::fresh(
                        a as usize,
                        plan.spec_strategy_for(a as usize),
                    ),
            decreases user_num - addr,
        {
            let ghost before = self@.blockchain;
            self.deploy_account(addr);
            let user = User::new(addr, plan.strategy_for(addr));
            proof {
                assert(users_view(self.users@.push(user)) =~= users_view(self.users@).push(user@));
                let after = self@.blockchain;
                let shard_id = addr as int % SHARD_NUM as int;
                assert(after.shards[shard_id].holds(addr));
                assert forall|a: Address| a < addr + 1
                    implies #[trigger] after.addr_to_shard_id.contains_key(
                    a,
                ) && after.shards[after.addr_to_shard_id[a] as int].holds(a) by {
                    if a != addr {
                        assert(before.addr_to_shard_id.contains_key(a));
                        let home = before.addr_to_shard_id[a] as int;
                        assert(before.shards[home].holds(a));
                        if home != shard_id {
                            assert(after.shards[home] == before.shards[home]);
                        }
                    }
                }
            }
            self.users.push(user);
            addr = addr + 1;
        }
        proof {
            let after = start.after_setup(graph, plan);
            assert(self@.users =~= after.users);
            assert forall|u: int| 0 <= u < self@.users.len()
                implies #[trigger] self@.nonces_in_step(
                u,
                false,
            ) by {
                assert(self@.users[u] == UserView::fresh(
                    u as usize,
                    plan.spec_strategy_for(u as usize),
                ));
            }
            assert forall|u: int| 0 <= u < self@.users.len()
                implies (#[trigger] self@.users[u]).wf()
                && self@.users[u].account_addr == u by {
                assert(self@.users[u] == UserView::fresh(
                    u as usize,
                    plan.spec_strategy_for(u as usize),
                ));
            }
        }
    }

    /// The shard that the index names for `shargrila_addr`.
    pub fn get_shard_id_from_addr(&self, shargrila_addr: Address) -> (shard_id: usize)
        requires
            self@.blockchain.addr_to_shard_id.contains_key(shargrila_addr),
        ensures
            shard_id == self@.blockchain.addr_to_shard_id[shargrila_addr],
    {
        broadcast use vstd::std_specs::hash::group_hash_axioms;

        match self.blockchain.addr_to_shard_id.get(&shargrila_addr) {
            Some(id) => *id,
            None => vstd::pervasive::unreached(),
        }
    }

    /// The fee cap of the transfers from `from` to `to`.
    pub fn determine_fee_cap(&self, from: Address, to: Address) -> (fee_cap: GasPrice)
        requires
            from < self@.user_graph.edges.len(),
            has_target(self@.user_graph.edges[from as int], to),
        ensures
            fee_cap == self@.user_graph.edges[from as int][target_index(
                self@.user_graph.edges[from as int],
                to,
            )].fee_cap,
    {
        self.user_graph.get_edge(from, to).fee_cap
    }
}

} // verus!
