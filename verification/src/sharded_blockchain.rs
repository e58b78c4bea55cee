use crate::account::Account;
use crate::custom_types::{Address, Epoch, Slot};
use crate::parameters::{SHARD_NUM, SLOTS_PER_EPOCH};
use crate::shard::{Shard, ShardView};
use crate::shard_laws::lemma_process_slot;
use std::collections::HashMap;
use vstd::prelude::*;

verus! {

/// The shards of the chain, and where each account lives.
pub struct ShardedBlockchain {
    pub slot: Slot,
    pub epoch: Epoch,
    pub shards: Vec<Shard>,
    pub addr_to_shard_id: HashMap<Address, usize>,
    /// How many accounts were deployed.
    pub account_num: usize,
}

/// What a `ShardedBlockchain` holds, as mathematical values.
pub struct ShardedBlockchainView {
    pub slot: Slot,
    pub epoch: Epoch,
    pub shards: Seq<ShardView>,
    pub addr_to_shard_id: Map<Address, usize>,
    pub account_num: usize,
}

/// The views of a sequence of shards.
pub open spec fn shards_view(shards: Seq<Shard>) -> Seq<ShardView> {
    shards.map_values(|s: Shard| s@)
}

impl View for ShardedBlockchain {
    type V = ShardedBlockchainView;

    open spec fn view(&self) -> ShardedBlockchainView {
        ShardedBlockchainView {
            slot: self.slot,
            epoch: self.epoch,
            shards: shards_view(self.shards@),
            addr_to_shard_id: self.addr_to_shard_id@,
            account_num: self.account_num,
        }
    }
}

/// Every shard, one slot later.
pub open spec fn shards_after_slot(shards: Seq<ShardView>) -> Seq<ShardView> {
    shards.map_values(|s: ShardView| s.process_slot())
}

/// The shard that holds `addr` and stands last among `shards`, if any
/// holds it.
pub open spec fn last_holder(shards: Seq<ShardView>, addr: Address) -> Option<usize>
    decreases shards.len(),
{
    if shards.len() == 0 {
        None
    } else if shards.last().holds(addr) {
        Some(shards.last().id)
    } else {
        last_holder(shards.drop_last(), addr)
    }
}

impl ShardedBlockchainView {
    /// The chain at genesis: `SHARD_NUM` shards and no account.
    pub open spec fn genesis() -> ShardedBlockchainView {
        ShardedBlockchainView {
            slot: 0,
            epoch: 0,
            shards: Seq::new(SHARD_NUM as nat, |i: int| ShardView::genesis(i as usize)),
            addr_to_shard_id: Map::empty(),
            account_num: 0,
        }
    }

    /// Whether the chain is well formed: it has `SHARD_NUM` shards, each
    /// well formed and known by its place, and the index names only shards
    /// that exist.
    pub open spec fn wf(self) -> bool {
        &&& self.shards.len() == SHARD_NUM
        &&& forall|i: int|
            0 <= i < self.shards.len() ==> (#[trigger] self.shards[i]).id == i
                && self.shards[i].wf()
        &&& forall|a: Address|
            self.addr_to_shard_id.contains_key(a) ==> (#[trigger] self.addr_to_shard_id[a])
                < SHARD_NUM
    }

    /// Whether no account is held by two shards.
    pub open spec fn single_owner(self) -> bool {
        forall|a: Address, i: int, j: int|
            0 <= i < self.shards.len() && 0 <= j < self.shards.len() && i != j && (
            #[trigger] self.shards[i].holds(a)) ==> !(#[trigger] self.shards[j].holds(a))
    }

    /// The chain after every shard has made its block.
    pub open spec fn process_slot(self) -> ShardedBlockchainView {
        ShardedBlockchainView { shards: shards_after_slot(self.shards), ..self }
    }

    /// The chain one slot later: every shard has made its block, the
    /// epoch has gone up where the slot ends one, and the slot has gone up.
    pub open spec fn step(self) -> ShardedBlockchainView {
        ShardedBlockchainView {
            shards: shards_after_slot(self.shards),
            epoch: if (self.slot + 1) % (SLOTS_PER_EPOCH as int) == 0 {
                (self.epoch + 1) as Epoch
            } else {
                self.epoch
            },
            slot: (self.slot + 1) as Slot,
            ..self
        }
    }

    /// The chain `slots` slots later.
    pub open spec fn advance(self, slots: nat) -> ShardedBlockchainView
        decreases slots,
    {
        if slots == 0 {
            self
        } else {
            self.advance((slots - 1) as nat).step()
        }
    }

    /// The epochs that end from `self.slot` up to `slot`.
    pub open spec fn epochs_until(self, slot: Slot) -> int {
        slot as int / (SLOTS_PER_EPOCH as int) - self.slot as int / (SLOTS_PER_EPOCH as int)
    }

    /// The chain with the index brought up to date for `addr`. Where the
    /// shard that the index names holds the account, nothing changes; else
    /// the index names the last shard that holds it, if one does.
    pub open spec fn update_addr_to_shard_id(self, addr: Address) -> ShardedBlockchainView {
        if self.shards[self.addr_to_shard_id[addr] as int].holds(addr) {
            self
        } else {
            match last_holder(self.shards, addr) {
                Some(id) => ShardedBlockchainView {
                    addr_to_shard_id: self.addr_to_shard_id.insert(addr, id),
                    ..self
                },
                None => self,
            }
        }
    }

    /// The account `addr` as the shard that the index names keeps it:
    /// settled (with `true`), on the move (with `false`), or not at all.
    pub open spec fn get_account(self, addr: Address) -> (bool, Option<Account>) {
        let shard = self.shards[self.addr_to_shard_id[addr] as int];
        if shard.accounts.contains_key(addr) {
            (true, Some(shard.accounts[addr]))
        } else if shard.moving_accounts.contains_key(addr) {
            (false, Some(shard.moving_accounts[addr]))
        } else {
            (false, None)
        }
    }
}

/// The holder that is found is one of the shards, and holds the account.
pub proof fn lemma_last_holder(shards: Seq<ShardView>, addr: Address)
    requires
        forall|i: int| 0 <= i < shards.len() ==> (#[trigger] shards[i]).id == i,
    ensures
        match last_holder(shards, addr) {
            Some(id) => id < shards.len() && shards[id as int].holds(addr) && forall|j: int|
                id < j < shards.len() ==> !(#[trigger] shards[j]).holds(addr),
            None => forall|j: int| 0 <= j < shards.len() ==> !(#[trigger] shards[j]).holds(addr),
        },
    decreases shards.len(),
{
    if shards.len() > 0 && !shards.last().holds(addr) {
        let shorter = shards.drop_last();
        assert forall|i: int| 0 <= i < shorter.len() implies (#[trigger] shorter[i]).id == i by {
            assert(shorter[i] == shards[i]);
        }
        lemma_last_holder(shorter, addr);
        match last_holder(shorter, addr) {
            Some(id) => {
                assert(shorter[id as int] == shards[id as int]);
                assert forall|j: int| id < j < shards.len() implies !(#[trigger] shards[j]).holds(
                    addr,
                ) by {
                    if j < shorter.len() {
                        assert(shorter[j] == shards[j]);
                    }
                }
            },
            None => {
                assert forall|j: int| 0 <= j < shards.len() implies !(#[trigger] shards[j]).holds(
                    addr,
                ) by {
                    if j < shorter.len() {
                        assert(shorter[j] == shards[j]);
                    }
                }
            },
        }
    }
}

/// A slot keeps a well-formed chain well formed.
pub proof fn lemma_step_wf(chain: ShardedBlockchainView)
    requires
        chain.wf(),
    ensures
        chain.step().wf(),
        chain.process_slot().wf(),
{
    let after = shards_after_slot(chain.shards);
    assert forall|i: int| 0 <= i < after.len() implies (#[trigger] after[i]).id == i
        && after[i].wf() by {
        lemma_process_slot(chain.shards[i]);
    }
}

/// Any number of slots keeps a well-formed chain well formed, and moves
/// the slot on by that number.
pub proof fn lemma_advance_wf(chain: ShardedBlockchainView, slots: nat)
    requires
        chain.wf(),
        chain.slot + slots <= u64::MAX,
    ensures
        chain.advance(slots).wf(),
        chain.advance(slots).slot == chain.slot + slots,
        chain.advance(slots).addr_to_shard_id == chain.addr_to_shard_id,
        chain.advance(slots).account_num == chain.account_num,
    decreases slots,
{
    if slots > 0 {
        lemma_advance_wf(chain, (slots - 1) as nat);
        lemma_step_wf(chain.advance((slots - 1) as nat));
    }
}

impl ShardedBlockchain {
    const GENESIS_SLOT: Slot = 0;

    const GENESIS_EPOCH: Epoch = 0;

    /// Whether the chain is well formed.
    pub open spec fn wf(&self) -> bool {
        self@.wf()
    }

    pub fn new() -> (chain: Self)
        ensures
            chain@ == ShardedBlockchainView::genesis(),
            chain.wf(),
    {
        let mut shards: Vec<Shard> = Vec::new();
        let mut i: usize = 0;
        while i < SHARD_NUM
            invariant
                i <= SHARD_NUM,
                shards.len() == i,
                forall|k: int| 0 <= k < i
                    ==> (#[trigger] shards[k])@ == ShardView::genesis(k as usize),
            decreases SHARD_NUM - i,
        {
            shards.push(Shard::new(i));
            i = i + 1;
        }
        let chain = Self {
            slot: ShardedBlockchain::GENESIS_SLOT,
            epoch: ShardedBlockchain::GENESIS_EPOCH,
            shards,
            addr_to_shard_id: HashMap::new(),
            account_num: 0,
        };
        proof {
            assert(chain@.shards =~= ShardedBlockchainView::genesis().shards);
            assert forall|k: int| 0 <= k < chain@.shards.len()
                implies (#[trigger] chain@.shards[k]).id
                == k && chain@.shards[k].wf() by {
                assert(chain@.shards[k] == ShardView::genesis(k as usize));
                assert(chain@.shards[k].states[0].base_fee == crate::parameters::INITIAL_BASE_FEE);
            }
        }
        chain
    }

    /// Advances the chain to `slot`.
    pub fn process_slots(&mut self, slot: Slot)
        requires
            old(self).wf(),
            old(self).slot <= slot,
            old(self).epoch + old(self)@.epochs_until(slot) <= u64::MAX,
        ensures
            final(self)@ == old(self)@.advance((slot - old(self).slot) as nat),
            final(self).wf(),
            final(self).slot == slot,
            final(self).epoch == old(self).epoch + old(self)@.epochs_until(slot),
    {
        let ghost start = self@;
        while self.slot < slot
            invariant
                start == old(self)@,
                start.wf(),
                start.slot <= self.slot <= slot,
                self@ == start.advance((self.slot - start.slot) as nat),
                self.wf(),
                self.epoch == start.epoch + start.epochs_until(self.slot),
                start.epoch + start.epochs_until(slot) <= u64::MAX,
            decreases slot - self.slot,
        {
            let ghost before = self@;
            self.process_slot();
            proof {
                lemma_step_wf(before);
            }
            if (self.slot + 1) % SLOTS_PER_EPOCH == 0 {
                self.process_epoch();
            }
            self.slot = self.slot + 1;
            assert(self@ == before.step());
        }
    }

    /// Advances every shard by one slot.
    pub fn process_slot(&mut self)
        requires
            old(self).wf(),
        ensures
            final(self)@ == old(self)@.process_slot(),
            final(self).wf(),
    {
        let ghost start = self@;
        let mut i: usize = 0;
        while i < self.shards.len()
            invariant
                i <= self.shards.len(),
                start.wf(),
                self@.shards.len() == start.shards.len(),
                self@.slot == start.slot,
                self@.epoch == start.epoch,
                self@.account_num == start.account_num,
                self@.addr_to_shard_id == start.addr_to_shard_id,
                forall|k: int| 0 <= k < i
                    ==> (#[trigger] self@.shards[k]) == start.shards[k].process_slot(),
                forall|k: int| i <= k < self.shards.len()
                    ==> (#[trigger] self@.shards[k]) == start.shards[k],
            decreases self.shards.len() - i,
        {
            proof {
                assert(self@.shards[i as int] == start.shards[i as int]);
                assert(start.shards[i as int].wf());
            }
            let ghost before = self@.shards;
            self.shards[i].process_slot();
            proof {
                assert forall|k: int| 0 <= k < self.shards.len() && k != i implies (
                #[trigger] self@.shards[k]) == before[k] by {}
            }
            i = i + 1;
        }
        proof {
            assert(self@.shards =~= shards_after_slot(start.shards));
            lemma_step_wf(start);
        }
    }

    /// Begins the next epoch.
    pub fn process_epoch(&mut self)
        requires
            old(self).epoch < u64::MAX,
        ensures
            final(self)@ == (ShardedBlockchainView {
                epoch: (old(self).epoch + 1) as Epoch,
                ..old(self)@
            }),
    {
        self.epoch = self.epoch + 1;
    }

    /// Brings the index up to date for the account `addr`.
    pub fn update_addr_to_shard_id(&mut self, addr: Address)
        requires
            old(self).wf(),
            old(self)@.addr_to_shard_id.contains_key(addr),
        ensures
            final(self)@ == old(self)@.update_addr_to_shard_id(addr),
            final(self).wf(),
    {
        broadcast use vstd::std_specs::hash::group_hash_axioms;

        let ghost start = self@;
        let shard_id: usize = match self.addr_to_shard_id.get(&addr) {
            Some(id) => *id,
            None => vstd::pervasive::unreached(),
        };
        let account = self.shards[shard_id].get_account(addr);
        let moving_account = self.shards[shard_id].get_moving_account(addr);
        if account.is_some() || moving_account.is_some() {
            return ;
        }
        let mut i: usize = 0;
        proof {
            assert(start.shards.take(0) =~= Seq::empty());
        }
        while i < self.shards.len()
            invariant
                i <= self.shards.len(),
                start.wf(),
                self@.shards == start.shards,
                self@.slot == start.slot,
                self@.epoch == start.epoch,
                self@.account_num == start.account_num,
                self@.addr_to_shard_id == match last_holder(start.shards.take(i as int), addr) {
                    Some(id) => start.addr_to_shard_id.insert(addr, id),
                    None => start.addr_to_shard_id,
                },
            decreases self.shards.len() - i,
        {
            proof {
                assert(start.shards.take(i + 1).drop_last() =~= start.shards.take(i as int));
                assert(start.shards.take(i + 1).last() == self@.shards[i as int]);
            }
            let held = self.shards[i].get_account(addr).is_some();
            let moving = self.shards[i].get_moving_account(addr).is_some();
            if held || moving {
                let id = self.shards[i].id;
                self.addr_to_shard_id.insert(addr, id);
                proof {
                    assert(self@.addr_to_shard_id =~= start.addr_to_shard_id.insert(addr, id));
                }
            }
            i = i + 1;
        }
        proof {
            assert(start.shards.take(i as int) =~= start.shards);
            lemma_last_holder(start.shards, addr);
        }
    }

    /// The account `addr`, looked up in the shard that the index names:
    /// with `true` where it is settled there, with `false` where it is on
    /// the move or not there at all.
    pub fn get_account(&self, addr: Address) -> (found: (bool, Option<&Account>))
        requires
            self.wf(),
            self@.addr_to_shard_id.contains_key(addr),
        ensures
            found.0 == self@.get_account(addr).0,
            match found.1 {
                Some(account) => self@.get_account(addr).1 == Some(*account),
                None => self@.get_account(addr).1 is None,
            },
    {
        broadcast use vstd::std_specs::hash::group_hash_axioms;

        let shard_id: usize = match self.addr_to_shard_id.get(&addr) {
            Some(id) => *id,
            None => vstd::pervasive::unreached(),
        };
        let account = self.shards[shard_id].get_account(addr);
        let moving_account = self.shards[shard_id].get_moving_account(addr);
        if account.is_some() {
            (true, account)
        } else if moving_account.is_some() {
            (false, moving_account)
        } else {
            (false, None)
        }
    }
}

impl Default for ShardedBlockchain {
    fn default() -> (chain: Self)
        ensures
            chain@ == ShardedBlockchainView::genesis(),
    {
        Self::new()
    }
}

} // verus!
