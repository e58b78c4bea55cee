use crate::account::Account;
use crate::custom_types::{Address, Data, Gas, GasPrice, Nonce, Slot, TransactionHash};
use crate::function::{Function, FunctionType, FunctionView};
use crate::json::{account_from_json, account_json, account_of_json, account_to_json};
use crate::mempool::{clone_entry, entries_view, sort_mempool, sorted_mempool, EntryView};
use crate::parameters::{BLOCK_GAS_LIMIT, INITIAL_BASE_FEE, MAX_GASPRICE, MEMPOOL_TRANSACTION_NUM};
use crate::ordering::{lemma_stable_sort_keeps, lemma_stable_sort_len};
use crate::mempool::priority_rank;
use crate::receipt::{receipt_option_view, Receipt, ReceiptView};
use crate::shard_laws::{lemma_fill_block, lemma_process_slot, lemma_wf_with_same_chain};
use crate::shard_block::{lemma_transactions_view_push, ShardBlock, ShardBlockView};
use crate::shard_state::{
    lemma_base_fee_stays_bounded, next_base_fee, receipts_view, ShardState, ShardStateView,
};
use crate::transaction::{
    functions_view, gas_sum, Transaction, TransactionAndReceipt, TransactionView,
};
use std::collections::{HashMap, HashSet};
use vstd::prelude::*;

verus! {

/// How running a transaction ended.
#[derive(Clone, Copy, PartialEq, Eq, Structural, Debug)]
pub enum TransactionExecutionResult {
    /// Every function of the transaction succeeded.
    Success,
    /// The nonce was used already, or a function failed.
    Fail,
    /// The nonce is ahead of the account: the transaction waits.
    Skip,
}

/// A shard chain, with the rule by which its state moves from slot to slot.
pub struct Shard {
    pub id: usize,
    pub blocks: Vec<ShardBlock>,
    pub states: Vec<ShardState>,
    pub accounts: HashMap<Address, Account>,
    pub receipts: HashMap<TransactionHash, Receipt>,
    pub moving_accounts: HashMap<Address, Account>,
    pub mempool: Vec<TransactionAndReceipt>,
    pub used_receipts: HashSet<TransactionHash>,
    pub account_nonce: HashMap<Address, Nonce>,
}

/// What a `Shard` holds, as mathematical values.
pub struct ShardView {
    pub id: usize,
    pub blocks: Seq<ShardBlockView>,
    pub states: Seq<ShardStateView>,
    pub accounts: Map<Address, Account>,
    pub receipts: Map<TransactionHash, ReceiptView>,
    pub moving_accounts: Map<Address, Account>,
    pub mempool: Seq<EntryView>,
    pub used_receipts: Set<TransactionHash>,
    pub account_nonce: Map<Address, Nonce>,
}

/// The views of a sequence of blocks.
pub open spec fn blocks_view(blocks: Seq<ShardBlock>) -> Seq<ShardBlockView> {
    blocks.map_values(|b: ShardBlock| b@)
}

/// The views of a sequence of states.
pub open spec fn states_view(states: Seq<ShardState>) -> Seq<ShardStateView> {
    states.map_values(|s: ShardState| s@)
}

impl View for Shard {
    type V = ShardView;

    open spec fn view(&self) -> ShardView {
        ShardView {
            id: self.id,
            blocks: blocks_view(self.blocks@),
            states: states_view(self.states@),
            accounts: self.accounts@,
            receipts: receipts_view(self.receipts@),
            moving_accounts: self.moving_accounts@,
            mempool: entries_view(self.mempool@),
            used_receipts: self.used_receipts@,
            account_nonce: self.account_nonce@,
        }
    }
}

/// What running one function left: the shard after it, whether it
/// succeeded, and the data it produced, if any.
pub struct FunctionOutcome {
    pub shard: ShardView,
    pub success: bool,
    pub data: Option<Seq<char>>,
}

/// What running the functions of a transaction left: the shard after them,
/// whether all succeeded, and the data that the last producer gave.
pub struct FunctionsOutcome {
    pub shard: ShardView,
    pub success: bool,
    pub data: Seq<char>,
}

/// What running a transaction left.
pub struct TransactionOutcome {
    pub shard: ShardView,
    pub result: TransactionExecutionResult,
    pub data: Seq<char>,
    pub gas_used: Gas,
}

impl ShardView {
    /// The shard `id` at genesis.
    pub open spec fn genesis(id: usize) -> ShardView {
        ShardView {
            id,
            blocks: Seq::empty(),
            states: seq![ShardStateView { base_fee: INITIAL_BASE_FEE, receipts: Map::empty() }],
            accounts: Map::empty(),
            receipts: Map::empty(),
            moving_accounts: Map::empty(),
            mempool: Seq::empty(),
            used_receipts: Set::empty(),
            account_nonce: Map::empty(),
        }
    }

    /// The base fee that the next block has to pay.
    pub open spec fn base_fee(self) -> GasPrice {
        self.states.last().base_fee
    }

    /// Whether the shard holds the account `addr`, settled or on the move.
    pub open spec fn holds(self, addr: Address) -> bool {
        self.accounts.contains_key(addr) || self.moving_accounts.contains_key(addr)
    }

    /// The nonce that the next transaction of `addr` must carry.
    pub open spec fn nonce_of(self, addr: Address) -> Nonce {
        if self.account_nonce.contains_key(addr) {
            self.account_nonce[addr]
        } else {
            0
        }
    }

    /// The shard without the account `addr`.
    pub open spec fn remove_account(self, addr: Address) -> ShardView {
        ShardView {
            accounts: self.accounts.remove(addr),
            moving_accounts: self.moving_accounts.remove(addr),
            ..self
        }
    }

    /// The shard after the account `addr` has left for another shard: it
    /// stands among the moving accounts.
    pub open spec fn move_account(self, addr: Address) -> ShardView {
        ShardView {
            accounts: self.accounts.remove(addr),
            moving_accounts: self.moving_accounts.insert(addr, self.accounts[addr]),
            ..self
        }
    }

    /// The shard after `account` has arrived: it is stamped with this shard.
    pub open spec fn insert_account(self, account: Account) -> ShardView {
        ShardView {
            accounts: self.accounts.insert(
                account.addr,
                Account { addr: account.addr, shard_id: self.id, balance: account.balance },
            ),
            ..self
        }
    }

    /// The shard with one more entry at the end of its mempool.
    pub open spec fn push_transaction(self, entry: EntryView) -> ShardView {
        ShardView { mempool: self.mempool.push(entry), ..self }
    }

    /// Whether `function` may run, given the receipt that its transaction
    /// presents.
    pub open spec fn function_allowed(self, function: FunctionView, receipt: Option<ReceiptView>)
        -> bool {
        match function.ftype {
            FunctionType::Transfer => self.accounts.contains_key(function.source)
                || self.accounts.contains_key(function.target),
            FunctionType::CreateCrossTransfer => self.accounts.contains_key(function.target)
                && function.source == function.target,
            FunctionType::ApplyCrossTransfer => true,
            FunctionType::CreateCrossTransferAll => self.accounts.contains_key(function.target),
            FunctionType::ApplyCrossTransferAll => {
                &&& receipt is Some
                &&& !self.used_receipts.contains(receipt->Some_0.transaction_hash)
                &&& account_of_json(receipt->Some_0.data) is Some
            },
        }
    }

    /// Runs one function. A function that is not allowed fails and leaves
    /// the shard as it was.
    pub open spec fn execute_function(self, function: FunctionView, receipt: Option<ReceiptView>)
        -> FunctionOutcome {
        if !self.function_allowed(function, receipt) {
            FunctionOutcome { shard: self, success: false, data: None }
        } else {
            match function.ftype {
                FunctionType::CreateCrossTransferAll => {
                    let account = self.accounts[function.target];
                    FunctionOutcome {
                        shard: self.move_account(function.target),
                        success: true,
                        data: Some(account_json(account.addr, account.shard_id, account.balance)),
                    }
                },
                FunctionType::ApplyCrossTransferAll => {
                    let (addr, shard_id, balance) = account_of_json(
                        receipt->Some_0.data,
                    )->Some_0;
                    FunctionOutcome {
                        shard: self.insert_account(Account { addr, shard_id, balance }),
                        success: true,
                        data: None,
                    }
                },
                _ => FunctionOutcome { shard: self, success: true, data: None },
            }
        }
    }

    /// Runs `functions` in order. The run succeeds when every function
    /// does; a function that fails does not stop those behind it.
    pub open spec fn execute_functions(
        self,
        functions: Seq<FunctionView>,
        receipt: Option<ReceiptView>,
    ) -> FunctionsOutcome
        decreases functions.len(),
    {
        if functions.len() == 0 {
            FunctionsOutcome { shard: self, success: true, data: Seq::empty() }
        } else {
            let before = self.execute_functions(functions.drop_last(), receipt);
            let step = before.shard.execute_function(functions.last(), receipt);
            FunctionsOutcome {
                shard: step.shard,
                success: before.success && step.success,
                data: match step.data {
                    Some(data) => data,
                    None => before.data,
                },
            }
        }
    }

    /// Runs a transaction. One whose nonce is ahead of the account is
    /// skipped, one whose nonce is behind fails, and neither costs gas nor
    /// changes the shard. Else the nonce of the account goes up by one and
    /// the functions run; their gas is charged whether they succeed or not.
    pub open spec fn execute_transaction(
        self,
        transaction: TransactionView,
        receipt: Option<ReceiptView>,
    ) -> TransactionOutcome {
        let expected = self.nonce_of(transaction.from);
        if transaction.nonce > expected {
            TransactionOutcome {
                shard: self,
                result: TransactionExecutionResult::Skip,
                data: Seq::empty(),
                gas_used: 0,
            }
        } else if transaction.nonce < expected {
            TransactionOutcome {
                shard: self,
                result: TransactionExecutionResult::Fail,
                data: Seq::empty(),
                gas_used: 0,
            }
        } else {
            let bumped = ShardView {
                account_nonce: self.account_nonce.insert(
                    transaction.from,
                    (expected + 1) as usize,
                ),
                ..self
            };
            let run = bumped.execute_functions(transaction.functions, receipt);
            TransactionOutcome {
                shard: run.shard,
                result: if run.success {
                    TransactionExecutionResult::Success
                } else {
                    TransactionExecutionResult::Fail
                },
                data: run.data,
                gas_used: transaction.gas() as Gas,
            }
        }
    }
}

/// Whether the effective priority at `base_fee` never rises from one
/// transaction to the next.
pub open spec fn in_priority_order(transactions: Seq<TransactionView>, base_fee: GasPrice) -> bool {
    forall|j: int, k: int|
        0 <= j < k < transactions.len() ==> transactions[j].effective_priority(base_fee)
            >= transactions[k].effective_priority(base_fee)
}

/// Whether the fee cap of every transaction is above `base_fee`.
pub open spec fn all_above_base_fee(transactions: Seq<TransactionView>, base_fee: GasPrice)
    -> bool {
    forall|k: int| 0 <= k < transactions.len() ==> (#[trigger] transactions[k]).fee_cap > base_fee
}

impl ShardView {
    /// Whether the mempool may take `transaction`: it is meant for this
    /// shard, and its nonce leaves room for the next one.
    pub open spec fn accepts(self, transaction: TransactionView) -> bool {
        transaction.shard_id == self.id && transaction.nonce < usize::MAX
    }

    /// Whether block `i` is as the rules of the chain make a block: it has
    /// its number, stays within the gas limit, holds only transactions
    /// whose fee cap is above the base fee of its slot, in the order of
    /// their effective priority, and the state behind it has the base fee
    /// that follows from the gas it used.
    pub open spec fn block_follows_rules(self, i: int) -> bool {
        let block = self.blocks[i];
        let base_fee = self.states[i].base_fee;
        &&& block.number == i as Slot
        &&& block.gas_used <= BLOCK_GAS_LIMIT
        &&& self.states[i + 1].base_fee == next_base_fee(base_fee as int, block.gas_used as int)
        &&& in_priority_order(block.executed_transactions, base_fee)
        &&& all_above_base_fee(block.executed_transactions, base_fee)
    }

    /// Whether every account that the shard keeps, settled or on the move,
    /// is stamped with this shard.
    pub open spec fn stamped(self) -> bool {
        &&& forall|a: Address| #[trigger]
            self.accounts.contains_key(a) ==> self.accounts[a].shard_id == self.id
        &&& forall|a: Address| #[trigger]
            self.moving_accounts.contains_key(a) ==> self.moving_accounts[a].shard_id == self.id
    }

    /// Whether the shard is well formed: there is one state more than
    /// there are blocks, no base fee is above `MAX_GASPRICE`, every block
    /// follows the rules, the mempool holds only transactions that it
    /// accepts, and every account is stamped with this shard.
    pub open spec fn wf(self) -> bool {
        &&& self.stamped()
        &&& self.states.len() == self.blocks.len() + 1
        &&& forall|i: int| 0 <= i < self.states.len() ==> (#[trigger] self.states[i]).base_fee
            <= MAX_GASPRICE
        &&& forall|i: int| 0 <= i < self.blocks.len() ==> #[trigger] self.block_follows_rules(i)
        &&& forall|i: int| 0 <= i < self.mempool.len()
            ==> self.accepts((#[trigger] self.mempool[i]).0)
    }

    /// Whether `after` may come from this shard by running transactions:
    /// the chain, the mempool and the used receipts are the same, no nonce
    /// has fallen, and no account has been lost.
    pub open spec fn evolves_to(self, after: ShardView) -> bool {
        &&& after.id == self.id
        &&& after.blocks == self.blocks
        &&& after.states == self.states
        &&& after.mempool == self.mempool
        &&& after.used_receipts == self.used_receipts
        &&& forall|a: Address|
            #![trigger self.nonce_of(a)]
            #![trigger after.nonce_of(a)]
            self.nonce_of(a) <= after.nonce_of(a)
        &&& forall|a: Address|
            #![trigger self.holds(a)]
            #![trigger after.holds(a)]
            self.holds(a) ==> after.holds(a)
    }
}

/// What filling a block left: the shard after the transactions that ran,
/// the block, the receipts of the slot, and how many transactions ran.
pub struct BlockRun {
    pub shard: ShardView,
    pub block: ShardBlockView,
    pub receipts: Map<TransactionHash, ReceiptView>,
    pub executed: nat,
}

/// The receipt of `transaction`, run in the block with number `number`.
pub open spec fn receipt_of(number: Slot, transaction: TransactionView, outcome: TransactionOutcome)
    -> ReceiptView {
    ReceiptView {
        slot_number: number,
        from: transaction.from,
        to: transaction.to,
        gas_used: outcome.gas_used,
        status: outcome.result == TransactionExecutionResult::Success,
        transaction_hash: transaction.hash,
        data: outcome.data,
    }
}

impl ShardView {
    /// Whether a block that has used `gas_used` stops before `transaction`:
    /// the transaction would pass the gas limit, or its fee cap is not
    /// above the base fee.
    pub open spec fn block_stops_at(gas_used: Gas, transaction: TransactionView, base_fee: GasPrice)
        -> bool {
        gas_used + transaction.gas() > BLOCK_GAS_LIMIT || transaction.fee_cap <= base_fee
    }

    /// Goes on filling `block` from `pool`, in order, until the pool ends
    /// or the block stops. A skipped transaction leaves no trace; any other
    /// is added to the block with its gas, and its receipt is recorded.
    pub open spec fn fill_block(
        self,
        pool: Seq<EntryView>,
        base_fee: GasPrice,
        block: ShardBlockView,
        receipts: Map<TransactionHash, ReceiptView>,
        executed: nat,
    ) -> BlockRun
        decreases pool.len(),
    {
        if pool.len() == 0 || Self::block_stops_at(block.gas_used, pool.first().0, base_fee) {
            BlockRun { shard: self, block, receipts, executed }
        } else {
            let (transaction, receipt) = pool.first();
            let outcome = self.execute_transaction(transaction, receipt);
            if outcome.result == TransactionExecutionResult::Skip {
                outcome.shard.fill_block(pool.drop_first(), base_fee, block, receipts, executed)
            } else {
                let made = receipt_of(block.number, transaction, outcome);
                let shard = ShardView {
                    receipts: outcome.shard.receipts.insert(transaction.hash, made),
                    ..outcome.shard
                };
                shard.fill_block(
                    pool.drop_first(),
                    base_fee,
                    ShardBlockView {
                        executed_transactions: block.executed_transactions.push(transaction),
                        gas_used: (block.gas_used + outcome.gas_used) as Gas,
                        number: block.number,
                    },
                    receipts.insert(transaction.hash, made),
                    executed + 1,
                )
            }
        }
    }

    /// The block of the next slot and what making it leaves, before the
    /// mempool is cut and the block appended.
    pub open spec fn slot_run(self) -> BlockRun {
        let base_fee = self.base_fee();
        let sorted = sorted_mempool(self.mempool, base_fee);
        (ShardView { mempool: sorted, ..self }).fill_block(
            sorted,
            base_fee,
            ShardBlockView::empty(self.blocks.len() as Slot),
            Map::empty(),
            0,
        )
    }

    /// The shard one slot later. The mempool is put in order of effective
    /// priority and a block is filled from it. As many entries as
    /// transactions ran leave the head of the mempool; what stays is put in
    /// order and cut to `MEMPOOL_TRANSACTION_NUM`. The block is appended,
    /// and a state with the next base fee and the receipts of the slot.
    pub open spec fn process_slot(self) -> ShardView {
        let base_fee = self.base_fee();
        let sorted = sorted_mempool(self.mempool, base_fee);
        let run = self.slot_run();
        let rest = sorted_mempool(sorted.skip(run.executed as int), base_fee);
        let kept = if rest.len() <= MEMPOOL_TRANSACTION_NUM {
            rest
        } else {
            rest.take(MEMPOOL_TRANSACTION_NUM as int)
        };
        ShardView {
            blocks: self.blocks.push(run.block),
            states: self.states.push(
                ShardStateView {
                    base_fee: next_base_fee(base_fee as int, run.block.gas_used as int) as GasPrice,
                    receipts: run.receipts,
                },
            ),
            mempool: kept,
            ..run.shard
        }
    }
}

impl Shard {
    /// Whether the shard is well formed.
    pub open spec fn wf(&self) -> bool {
        self@.wf()
    }

    pub fn new(id: usize) -> (shard: Self)
        ensures
            shard@ == ShardView::genesis(id),
            shard.wf(),
    {
        let mut states: Vec<ShardState> = Vec::new();
        states.push(ShardState::new(INITIAL_BASE_FEE));
        let shard = Self {
            id,
            blocks: Vec::new(),
            states,
            accounts: HashMap::new(),
            receipts: HashMap::new(),
            moving_accounts: HashMap::new(),
            used_receipts: HashSet::new(),
            mempool: Vec::new(),
            account_nonce: HashMap::new(),
        };
        proof {
            assert(shard@.blocks =~= Seq::empty());
            assert(shard@.states =~= ShardView::genesis(id).states);
            assert(shard@.receipts =~= Map::empty());
            assert(shard@.mempool =~= Seq::empty());
            assert(shard@.states[0].base_fee == INITIAL_BASE_FEE);
        }
        shard
    }

    /// The settled account `addr`, if the shard holds it.
    pub fn get_account(&self, addr: Address) -> (account: Option<&Account>)
        ensures
            match account {
                Some(a) => self@.accounts.contains_key(addr) && *a == self@.accounts[addr],
                None => !self@.accounts.contains_key(addr),
            },
    {
        broadcast use vstd::std_specs::hash::group_hash_axioms;

        self.accounts.get(&addr)
    }

    /// The account `addr` on its way to another shard, if this shard still
    /// keeps it.
    pub fn get_moving_account(&self, addr: Address) -> (account: Option<&Account>)
        ensures
            match account {
                Some(a) => self@.moving_accounts.contains_key(addr) && *a
                    == self@.moving_accounts[addr],
                None => !self@.moving_accounts.contains_key(addr),
            },
    {
        broadcast use vstd::std_specs::hash::group_hash_axioms;

        self.moving_accounts.get(&addr)
    }

    /// Forgets the account `addr`, settled or on the move.
    pub fn remove_account(&mut self, addr: Address)
        ensures
            final(self)@ == old(self)@.remove_account(addr),
            old(self).wf() ==> final(self).wf(),
    {
        broadcast use vstd::std_specs::hash::group_hash_axioms;

        self.accounts.remove(&addr);
        self.moving_accounts.remove(&addr);
        proof {
            if old(self).wf() {
                assert forall|a: Address| #[trigger]
                    self@.accounts.contains_key(a) implies self@.accounts[a].shard_id
                    == self.id by {
                    assert(old(self)@.accounts.contains_key(a));
                }
                assert forall|a: Address| #[trigger]
                    self@.moving_accounts.contains_key(a) implies self@.moving_accounts[a].shard_id
                    == self.id by {
                    assert(old(self)@.moving_accounts.contains_key(a));
                }
                assert forall|i: int| 0 <= i < self@.mempool.len() implies self@.accepts(
                    (#[trigger] self@.mempool[i]).0,
                ) by {
                    assert(old(self)@.accepts(old(self)@.mempool[i].0));
                }
                lemma_wf_with_same_chain(old(self)@, self@);
            }
        }
    }

    /// Puts the settled account `addr` among the moving accounts and gives
    /// its JSON text.
    pub fn move_account(&mut self, addr: Address) -> (data: Data)
        requires
            old(self)@.accounts.contains_key(addr),
        ensures
            final(self)@ == old(self)@.move_account(addr),
            data@ == account_json(
                old(self)@.accounts[addr].addr,
                old(self)@.accounts[addr].shard_id,
                old(self)@.accounts[addr].balance,
            ),
            account_of_json(data@) == Some(
                (
                    old(self)@.accounts[addr].addr,
                    old(self)@.accounts[addr].shard_id,
                    old(self)@.accounts[addr].balance,
                ),
            ),
            old(self).wf() ==> final(self).wf(),
    {
        broadcast use vstd::std_specs::hash::group_hash_axioms;

        let account: Account = match self.accounts.get(&addr) {
            Some(a) => *a,
            None => vstd::pervasive::unreached(),
        };
        let data = match account_to_json(account.addr, account.shard_id, account.balance) {
            Ok(text) => text,
            Err(_) => vstd::pervasive::unreached(),
        };
        self.moving_accounts.insert(addr, account);
        self.accounts.remove(&addr);
        proof {
            if old(self).wf() {
                assert(old(self)@.accounts.contains_key(addr));
                assert(account.shard_id == self.id);
                assert(self@.moving_accounts == old(self)@.moving_accounts.insert(addr, account));
                assert(self@.accounts == old(self)@.accounts.remove(addr));
                assert forall|a: Address| #[trigger]
                    self@.moving_accounts.contains_key(a) implies self@.moving_accounts[a].shard_id
                    == self.id by {
                    if a != addr {
                        assert(old(self)@.moving_accounts.contains_key(a));
                    }
                }
                assert forall|a: Address| #[trigger]
                    self@.accounts.contains_key(a) implies self@.accounts[a].shard_id
                    == self.id by {
                    assert(old(self)@.accounts.contains_key(a));
                }
                assert forall|i: int| 0 <= i < self@.mempool.len() implies self@.accepts(
                    (#[trigger] self@.mempool[i]).0,
                ) by {
                    assert(old(self)@.accepts(old(self)@.mempool[i].0));
                }
                lemma_wf_with_same_chain(old(self)@, self@);
            }
        }
        data
    }

    /// Takes in an account that arrives from another shard.
    pub fn insert_account(&mut self, account: Account)
        ensures
            final(self)@ == old(self)@.insert_account(account),
            old(self).wf() ==> final(self).wf(),
    {
        broadcast use vstd::std_specs::hash::group_hash_axioms;

        let mut account = account;
        account.shard_id = self.id;
        self.accounts.insert(account.addr, account);
        proof {
            if old(self).wf() {
                assert(self@.accounts == old(self)@.accounts.insert(account.addr, account));
                assert(self@.moving_accounts == old(self)@.moving_accounts);
                assert forall|a: Address| #[trigger]
                    self@.accounts.contains_key(a) implies self@.accounts[a].shard_id
                    == self.id by {
                    if a != account.addr {
                        assert(old(self)@.accounts.contains_key(a));
                    }
                }
                assert forall|i: int| 0 <= i < self@.mempool.len() implies self@.accepts(
                    (#[trigger] self@.mempool[i]).0,
                ) by {
                    assert(old(self)@.accepts(old(self)@.mempool[i].0));
                }
                lemma_wf_with_same_chain(old(self)@, self@);
            }
        }
    }

    /// The gas that a transaction will use: the sum over its functions.
    pub fn estimate_transaction_gas(&self, transaction: &Transaction) -> (gas: Gas)
        ensures
            gas == transaction@.gas(),
            gas <= transaction.functions.len() * 52_820,
    {
        transaction.estimated_gas()
    }

    /// The base fee that the next block has to pay.
    pub fn get_base_fee(&self) -> (base_fee: GasPrice)
        requires
            self@.states.len() > 0,
        ensures
            base_fee == self@.base_fee(),
    {
        self.states[self.states.len() - 1].base_fee
    }

    /// Runs one function of a transaction that presents `receipt`.
    pub fn execute_function(&mut self, function: &Function, receipt: &Option<Receipt>) -> (outcome:
        (bool, Option<Data>))
        ensures
            final(self)@ == old(self)@.execute_function(
                function@,
                receipt_option_view(*receipt),
            ).shard,
            outcome.0 == old(self)@.execute_function(
                function@,
                receipt_option_view(*receipt),
            ).success,
            match outcome.1 {
                Some(data) => Some(data@) == old(self)@.execute_function(
                    function@,
                    receipt_option_view(*receipt),
                ).data,
                None => old(self)@.execute_function(function@, receipt_option_view(*receipt)).data
                    is None,
            },
            outcome.1 matches Some(data) ==> account_of_json(data@) == Some(
                (
                    old(self)@.accounts[function.target].addr,
                    old(self)@.accounts[function.target].shard_id,
                    old(self)@.accounts[function.target].balance,
                ),
            ),
    {
        broadcast use vstd::std_specs::hash::group_hash_axioms;

        match function.ftype {
            FunctionType::Transfer => {
                if !self.accounts.contains_key(&function.source) && !self.accounts.contains_key(
                    &function.target,
                ) {
                    return (false, None);
                }
                (true, None)
            },
            FunctionType::CreateCrossTransfer => {
                if !self.accounts.contains_key(&function.target) {
                    return (false, None);
                }
                if function.source != function.target {
                    return (false, None);
                }
                (true, None)
            },
            FunctionType::ApplyCrossTransfer => (true, None),
            FunctionType::CreateCrossTransferAll => {
                if !self.accounts.contains_key(&function.target) {
                    return (false, None);
                }
                let data = self.move_account(function.target);
                (true, Some(data))
            },
            FunctionType::ApplyCrossTransferAll => {
                match receipt {
                    None => (false, None),
                    Some(receipt) => {
                        if self.used_receipts.contains(&receipt.transaction_hash) {
                            return (false, None);
                        }
                        match account_from_json(receipt.data.as_str()) {
                            Err(_) => (false, None),
                            Ok((addr, shard_id, balance)) => {
                                self.insert_account(Account { addr, shard_id, balance });
                                (true, None)
                            },
                        }
                    },
                }
            },
        }
    }

    /// Runs a transaction that presents `receipt`, and says how it ended,
    /// what data it produced and how much gas it used.
    pub fn execute_transaction(&mut self, transaction: &Transaction, receipt: &Option<Receipt>)
        -> (outcome:
        (TransactionExecutionResult, Data, Gas))
        requires
            transaction.shard_id == old(self).id,
            transaction.nonce < usize::MAX,
        ensures
            final(self)@ == old(self)@.execute_transaction(
                transaction@,
                receipt_option_view(*receipt),
            ).shard,
            outcome.0 == old(self)@.execute_transaction(
                transaction@,
                receipt_option_view(*receipt),
            ).result,
            outcome.1@ == old(self)@.execute_transaction(
                transaction@,
                receipt_option_view(*receipt),
            ).data,
            outcome.2 == old(self)@.execute_transaction(
                transaction@,
                receipt_option_view(*receipt),
            ).gas_used,
    {
        broadcast use vstd::std_specs::hash::group_hash_axioms;

        let mut data = Data::new();
        let expected: Nonce = match self.account_nonce.get(&transaction.from) {
            Some(nonce) => *nonce,
            None => 0,
        };
        if transaction.nonce > expected {
            return (TransactionExecutionResult::Skip, data, 0);
        }
        if transaction.nonce < expected {
            return (TransactionExecutionResult::Fail, data, 0);
        }
        self.account_nonce.insert(transaction.from, expected + 1);

        let ghost bumped = self@;
        let ghost functions = functions_view(transaction.functions@);
        let ghost presented = receipt_option_view(*receipt);
        let mut success = true;
        let mut gas_used: Gas = 0;
        let mut i: usize = 0;
        proof {
            assert(functions.take(0) =~= Seq::empty());
        }
        while i < transaction.functions.len()
            invariant
                i <= transaction.functions.len(),
                functions == functions_view(transaction.functions@),
                presented == receipt_option_view(*receipt),
                self@ == bumped.execute_functions(functions.take(i as int), presented).shard,
                success == bumped.execute_functions(functions.take(i as int), presented).success,
                data@ == bumped.execute_functions(functions.take(i as int), presented).data,
                gas_used == gas_sum(functions.take(i as int)),
                gas_used <= i * 52_820,
            decreases transaction.functions.len() - i,
        {
            proof {
                assert(functions.take(i + 1).drop_last() =~= functions.take(i as int));
                assert(functions.take(i + 1).last() == transaction.functions[i as int]@);
            }
            gas_used = gas_used + transaction.functions[i].gas();
            let (success_func, data_func) = self.execute_function(&transaction.functions[i],
                receipt);
            match data_func {
                Some(produced) => {
                    data = produced;
                },
                None => {},
            }
            success = success && success_func;
            i = i + 1;
        }
        proof {
            assert(functions.take(i as int) =~= functions);
        }
        if success {
            (TransactionExecutionResult::Success, data, gas_used)
        } else {
            (TransactionExecutionResult::Fail, data, gas_used)
        }
    }

    /// The state that follows the last block: it holds the next base fee
    /// and no receipts yet.
    pub fn generate_next_state(&self) -> (state: ShardState)
        requires
            self@.blocks.len() > 0,
            self@.states.len() > 0,
            self@.base_fee() <= MAX_GASPRICE,
            self@.blocks.last().gas_used <= BLOCK_GAS_LIMIT,
        ensures
            state@ == (ShardStateView {
                base_fee: next_base_fee(
                    self@.base_fee() as int,
                    self@.blocks.last().gas_used as int,
                ) as GasPrice,
                receipts: Map::empty(),
            }),
    {
        let prev_base_fee = self.states[self.states.len() - 1].base_fee;
        let block_gas_used = self.blocks[self.blocks.len() - 1].gas_used;
        proof {
            lemma_base_fee_stays_bounded(prev_base_fee as int, block_gas_used as int);
        }
        let base_fee = ShardState::compute_updated_gasprice(prev_base_fee, block_gas_used);
        ShardState::new(base_fee)
    }

    /// Adds a transaction to the mempool, with the receipt that it
    /// presents, if any.
    pub fn push_transaction(&mut self, transaction: Transaction, receipt: Option<Receipt>)
        ensures
            final(self)@
                == old(self)@.push_transaction((transaction@, receipt_option_view(receipt))),
            old(self).wf() && old(self)@.accepts(transaction@) ==> final(self).wf(),
    {
        proof {
            assert(entries_view(self.mempool@.push((transaction, receipt))) =~= entries_view(
                self.mempool@,
            ).push((transaction@, receipt_option_view(receipt))));
        }
        self.mempool.push((transaction, receipt));
        proof {
            if old(self).wf() && old(self)@.accepts(transaction@) {
                assert(self@.accounts == old(self)@.accounts);
                assert(self@.moving_accounts == old(self)@.moving_accounts);
                assert(old(self)@.stamped());
                assert forall|i: int| 0 <= i < self@.mempool.len() implies self@.accepts(
                    (#[trigger] self@.mempool[i]).0,
                ) by {
                    if i < old(self)@.mempool.len() {
                        assert(old(self)@.accepts(old(self)@.mempool[i].0));
                    }
                }
                lemma_wf_with_same_chain(old(self)@, self@);
            }
        }
    }

    /// Advances the shard by one slot.
    pub fn process_slot(&mut self)
        requires
            old(self).wf(),
        ensures
            final(self)@ == old(self)@.process_slot(),
            final(self).wf(),
            final(self)@.states.len() == final(self)@.blocks.len() + 1,
            final(self)@.blocks.len() == old(self)@.blocks.len() + 1,
            final(self)@.blocks.last().gas_used <= BLOCK_GAS_LIMIT,
            final(self)@.base_fee() == next_base_fee(
                old(self)@.base_fee() as int,
                final(self)@.blocks.last().gas_used as int,
            ),
            in_priority_order(
                final(self)@.blocks.last().executed_transactions,
                old(self)@.base_fee(),
            ),
            all_above_base_fee(
                final(self)@.blocks.last().executed_transactions,
                old(self)@.base_fee(),
            ),
            forall|a: Address| old(self)@.nonce_of(a) <= #[trigger] final(self)@.nonce_of(a),
            forall|a: Address| old(self)@.holds(a) ==> #[trigger] final(self)@.holds(a),
    {
        broadcast use vstd::std_specs::hash::group_hash_axioms;

        let ghost start = self@;
        let base_fee = self.get_base_fee();
        let ghost rank = priority_rank(base_fee);
        let ghost sorted = sorted_mempool(start.mempool, base_fee);
        sort_mempool(&mut self.mempool, base_fee);
        let ghost ordered = self@;
        let ghost target = start.slot_run();
        proof {
            lemma_process_slot(start);
            lemma_stable_sort_len(start.mempool, rank);
            let accepted = |e: EntryView| start.accepts(e.0);
            lemma_stable_sort_keeps(start.mempool, rank, accepted);
            assert forall|k: int| 0 <= k < sorted.len() implies start.accepts(
                (#[trigger] sorted[k]).0,
            ) by {
                assert(accepted(sorted[k]));
            }
            assert(ordered == (ShardView { mempool: sorted, ..start }));
            assert(sorted.skip(0) =~= sorted);
            crate::ordering::lemma_stable_sort_is_sorted(start.mempool, rank);
            lemma_fill_block(
                ordered,
                sorted,
                base_fee,
                ShardBlockView::empty(start.blocks.len() as Slot),
                Map::empty(),
                0,
            );
        }

        let mut block = ShardBlock::new(self.blocks.len() as Slot);
        let mut executed_num: usize = 0;
        let mut receipts: HashMap<TransactionHash, Receipt> = HashMap::new();
        proof {
            assert(receipts_view(receipts@) =~= Map::empty());
        }
        let mut i: usize = 0;
        while i < self.mempool.len()
            invariant
                i <= self.mempool.len(),
                executed_num <= i,
                self@.mempool == sorted,
                self@.id == start.id,
                forall|k: int| 0 <= k < sorted.len() ==> start.accepts((#[trigger] sorted[k]).0),
                block@.gas_used <= BLOCK_GAS_LIMIT,
                target == self@.fill_block(
                    sorted.skip(i as int),
                    base_fee,
                    block@,
                    receipts_view(receipts@),
                    executed_num as nat,
                ),
            ensures
                executed_num <= self.mempool.len(),
                target == (BlockRun {
                    shard: self@,
                    block: block@,
                    receipts: receipts_view(receipts@),
                    executed: executed_num as nat,
                }),
            decreases self.mempool.len() - i,
        {
            let ghost before = self@;
            let ghost pool = sorted.skip(i as int);
            proof {
                assert(pool.first() == sorted[i as int]);
                assert(pool.drop_first() =~= sorted.skip(i + 1));
                assert(start.accepts(sorted[i as int].0));
            }
            let (transaction, receipt) = clone_entry(&self.mempool[i]);
            let estimated_gas = self.estimate_transaction_gas(&transaction);
            if block.gas_used + estimated_gas > BLOCK_GAS_LIMIT {
                break ;
            }
            if transaction.fee_cap <= base_fee {
                break ;
            }
            let (result, data, gas) = self.execute_transaction(&transaction, &receipt);
            let ghost outcome = before.execute_transaction(transaction@,
                receipt_option_view(receipt));
            proof {
                crate::shard_laws::lemma_execute_transaction_evolves(
                    before,
                    transaction@,
                    receipt_option_view(receipt),
                );
            }
            match result {
                TransactionExecutionResult::Skip => {},
                _ => {
                    block.gas_used = block.gas_used + gas;
                    let status = match result {
                        TransactionExecutionResult::Success => true,
                        _ => false,
                    };
                    let made = Receipt::new(block.number, &transaction, gas, status, data);
                    let copy = made.clone();
                    proof {
                        assert(made@ == receipt_of(block@.number, transaction@, outcome));
                        assert(receipts_view(receipts@.insert(transaction.hash, copy))
                            =~= receipts_view(receipts@).insert(transaction.hash, made@));
                        assert(receipts_view(self.receipts@.insert(transaction.hash, made))
                            =~= receipts_view(self.receipts@).insert(transaction.hash, made@));
                        lemma_transactions_view_push(block.executed_transactions@, transaction);
                    }
                    receipts.insert(transaction.hash, copy);
                    self.receipts.insert(transaction.hash, made);
                    block.executed_transactions.push(transaction);
                    executed_num = executed_num + 1;
                },
            }
            i = i + 1;
        }
        proof {
            assert(ordered.evolves_to(self@));
            assert(self@.blocks == start.blocks);
            assert(self@.states == start.states);
        }
        let ghost ran = self@;
        let rest = self.mempool.split_off(executed_num);
        self.mempool = rest;
        proof {
            assert(entries_view(self.mempool@) =~= sorted.skip(executed_num as int));
        }
        sort_mempool(&mut self.mempool, base_fee);
        proof {
            lemma_stable_sort_len(sorted.skip(executed_num as int), rank);
            let all = entries_view(self.mempool@);
            if all.len() > MEMPOOL_TRANSACTION_NUM {
                assert(entries_view(self.mempool@.subrange(0, MEMPOOL_TRANSACTION_NUM as int))
                    =~= all.take(MEMPOOL_TRANSACTION_NUM as int));
            }
        }
        self.mempool.truncate(MEMPOOL_TRANSACTION_NUM);
        proof {
            assert(blocks_view(self.blocks@.push(block)) =~=
                blocks_view(self.blocks@).push(block@));
        }
        self.blocks.push(block);
        let mut state = self.generate_next_state();
        state.receipts = receipts;
        proof {
            assert(states_view(self.states@.push(state)) =~=
                states_view(self.states@).push(state@));
        }
        self.states.push(state);
        proof {
            assert(self@.accounts == ran.accounts);
            assert(self@.receipts == ran.receipts);
            assert(self@.blocks == start.blocks.push(target.block));
            assert(self@.states =~= start.process_slot().states);
            assert(self@.mempool == start.process_slot().mempool);
        }
    }
}

} // verus!
