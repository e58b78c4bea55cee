use crate::custom_types::{Address, Gas, GasPrice, Nonce, TransactionHash};
use crate::function::{Function, FunctionView};
use crate::receipt::Receipt;
use vstd::prelude::*;
use vstd::std_specs::cmp::PartialEqSpecImpl;

verus! {

/// A transaction: a sequence of functions that one account pays for.
#[derive(Debug)]
pub struct Transaction {
    /// The account that signs the transaction and pays its gas.
    pub from: Address,
    pub to: Address,
    pub shard_id: usize,
    pub nonce: Nonce,
    pub functions: Vec<Function>,
    pub gas_premium: GasPrice,
    pub fee_cap: GasPrice,
    pub gas_limit: Gas,
    pub hash: TransactionHash,
}

/// What a `Transaction` holds, as mathematical values.
pub struct TransactionView {
    pub from: Address,
    pub to: Address,
    pub shard_id: usize,
    pub nonce: Nonce,
    pub functions: Seq<FunctionView>,
    pub gas_premium: GasPrice,
    pub fee_cap: GasPrice,
    pub gas_limit: Gas,
    pub hash: TransactionHash,
}

/// A transaction in a mempool, with the receipt that it presents, if any.
pub type TransactionAndReceipt = (Transaction, Option<Receipt>);

/// The views of a sequence of functions.
pub open spec fn functions_view(functions: Seq<Function>) -> Seq<FunctionView> {
    functions.map_values(|f: Function| f@)
}

impl View for Transaction {
    type V = TransactionView;

    open spec fn view(&self) -> TransactionView {
        TransactionView {
            from: self.from,
            to: self.to,
            shard_id: self.shard_id,
            nonce: self.nonce,
            functions: functions_view(self.functions@),
            gas_premium: self.gas_premium,
            fee_cap: self.fee_cap,
            gas_limit: self.gas_limit,
            hash: self.hash,
        }
    }
}

impl TransactionView {
    /// Gas of the whole transaction: the sum over its functions.
    pub open spec fn gas(self) -> nat {
        gas_sum(self.functions)
    }

    /// The price per gas that the sender in effect offers at `base_fee`:
    /// the premium on top of the base fee, but never more than the cap.
    pub open spec fn effective_priority(self, base_fee: GasPrice) -> nat {
        if self.fee_cap <= self.gas_premium + base_fee {
            self.fee_cap as nat
        } else {
            (self.gas_premium + base_fee) as nat
        }
    }
}

/// Sum of the gas of `functions`.
pub open spec fn gas_sum(functions: Seq<FunctionView>) -> nat
    decreases functions.len(),
{
    if functions.len() == 0 {
        0
    } else {
        gas_sum(functions.drop_last()) + functions.last().ftype.spec_gas() as nat
    }
}

/// The `count` low bytes of `x`, least significant first.
pub open spec fn le_bytes(x: nat, count: nat) -> Seq<u8>
    decreases count,
{
    if count == 0 {
        Seq::empty()
    } else {
        seq![(x % 256) as u8] + le_bytes(x / 256, (count - 1) as nat)
    }
}

/// One step of the sdbm hash on 64 bits: `byte + hash * 65599`, reduced
/// modulo 2^64.
pub open spec fn sdbm_step(hash: u64, byte: u8) -> u64 {
    ((byte as int + hash as int * 65599) % 0x1_0000_0000_0000_0000) as u64
}

/// The sdbm hash of `bytes`, on 64 bits, starting from 0.
pub open spec fn sdbm(bytes: Seq<u8>) -> u64
    decreases bytes.len(),
{
    if bytes.len() == 0 {
        0
    } else {
        sdbm_step(sdbm(bytes.drop_last()), bytes.last())
    }
}

/// The hash of the transaction that `from` sends to shard `shard_id` with
/// `nonce`: sdbm over the three numbers, each as eight little-endian bytes.
pub open spec fn transaction_hash(from: Address, shard_id: usize, nonce: Nonce) -> TransactionHash {
    sdbm(le_bytes(from as nat, 8) + le_bytes(shard_id as nat, 8) + le_bytes(nonce as nat, 8))
}

/// Appends the eight little-endian bytes of `x` to `bytes`.
fn push_le_bytes(bytes: &mut Vec<u8>, x: u64)
    ensures
        final(bytes)@ == old(bytes)@ + le_bytes(x as nat, 8),
{
    let mut rest: u64 = x;
    let mut i: usize = 0;
    while i < 8
        invariant
            i <= 8,
            bytes@ + le_bytes(rest as nat, (8 - i) as nat) == old(bytes)@ + le_bytes(x as nat, 8),
        decreases 8 - i,
    {
        let b: u8 = (rest % 256) as u8;
        proof {
            assert(le_bytes(rest as nat, (8 - i) as nat) == seq![b] + le_bytes(
                (rest / 256) as nat,
                (8 - i - 1) as nat,
            ));
            assert(bytes@.push(b) + le_bytes((rest / 256) as nat, (8 - i - 1) as nat) == bytes@ + (
            seq![b] + le_bytes((rest / 256) as nat, (8 - i - 1) as nat)));
        }
        bytes.push(b);
        rest = rest / 256;
        i = i + 1;
    }
    assert(le_bytes(rest as nat, 0) == Seq::<u8>::empty());
    assert(bytes@ + Seq::<u8>::empty() == bytes@);
}

/// One step of the hash, by shifts and wrapping sums.
fn sdbm_next(hash: u64, byte: u8) -> (next: u64)
    ensures
        next == sdbm_step(hash, byte),
{
    let s6: u64 = hash << 6;
    let s16: u64 = hash << 16;
    let n1: u64 = (byte as u64).wrapping_add(s6);
    let n2: u64 = n1.wrapping_add(s16);
    let n3: u64 = n2.wrapping_sub(hash);
    proof {
        let m: int = 0x1_0000_0000_0000_0000;
        assert(s6 == (hash * 64) % 0x1_0000_0000_0000_0000) by (bit_vector)
            requires
                s6 == hash << 6,
        ;
        assert(s16 == (hash * 65536) % 0x1_0000_0000_0000_0000) by (bit_vector)
            requires
                s16 == hash << 16,
        ;
        let k1: int = (hash * 64) / m;
        let k2: int = (hash * 65536) / m;
        assert(s6 == hash * 64 - m * k1);
        assert(s16 == hash * 65536 - m * k2);
        let c1: int = if byte + s6 >= m { 1 } else { 0 };
        let c2: int = if n1 + s16 >= m { 1 } else { 0 };
        let c3: int = if n2 - hash < 0 { 1 } else { 0 };
        assert(n1 == byte + s6 - m * c1);
        assert(n2 == n1 + s16 - m * c2);
        assert(n3 == n2 - hash + m * c3);
        let q: int = k1 + k2 + c1 + c2 - c3;
        let x: int = byte as int + hash as int * 65599;
        assert(x == m * q + n3);
        vstd::arithmetic::div_mod::lemma_fundamental_div_mod_converse(x, m, q, n3 as int);
    }
    n3
}

impl Transaction {
    pub fn new(
        from: Address,
        to: Address,
        shard_id: usize,
        functions: Vec<Function>,
        gas_premium: GasPrice,
        fee_cap: GasPrice,
        nonce: Nonce,
    ) -> (transaction: Self)
        ensures
            transaction@ == (TransactionView {
                from,
                to,
                shard_id,
                nonce,
                functions: functions_view(functions@),
                gas_premium,
                fee_cap,
                gas_limit: u128::MAX,
                hash: transaction_hash(from, shard_id, nonce),
            }),
    {
        Self {
            from,
            to,
            shard_id,
            functions,
            gas_premium,
            fee_cap,
            gas_limit: Gas::MAX,
            nonce,
            hash: Transaction::generate_transaction_hash(from, shard_id, nonce),
        }
    }

    /// The hash that identifies a transaction. The triple of sender, shard
    /// and nonce is taken to be unique.
    pub fn generate_transaction_hash(from: Address, shard_id: usize, nonce: Nonce) -> (hash:
        TransactionHash)
        ensures
            hash == transaction_hash(from, shard_id, nonce),
    {
        let mut bytes: Vec<u8> = Vec::new();
        push_le_bytes(&mut bytes, from as u64);
        push_le_bytes(&mut bytes, shard_id as u64);
        push_le_bytes(&mut bytes, nonce as u64);

        let mut hash: u64 = 0;
        let mut i: usize = 0;
        while i < bytes.len()
            invariant
                i <= bytes.len(),
                hash == sdbm(bytes@.take(i as int)),
            decreases bytes.len() - i,
        {
            proof {
                assert(bytes@.take(i + 1).drop_last() == bytes@.take(i as int));
            }
            hash = sdbm_next(hash, bytes[i]);
            i = i + 1;
        }
        assert(bytes@.take(bytes.len() as int) == bytes@);
        hash
    }

    /// Gas of the transaction before it runs: the sum over its functions.
    pub fn estimated_gas(&self) -> (gas: Gas)
        ensures
            gas == self@.gas(),
            gas <= self.functions.len() * 52_820,
    {
        let mut total: Gas = 0;
        let mut i: usize = 0;
        while i < self.functions.len()
            invariant
                i <= self.functions.len(),
                total == gas_sum(functions_view(self.functions@).take(i as int)),
                total <= i * 52_820,
            decreases self.functions.len() - i,
        {
            proof {
                let fs = functions_view(self.functions@);
                assert(fs.take(i + 1).drop_last() == fs.take(i as int));
            }
            total = total + self.functions[i].gas();
            i = i + 1;
        }
        proof {
            let fs = functions_view(self.functions@);
            assert(fs.take(fs.len() as int) == fs);
        }
        total
    }

    /// The price per gas that the sender in effect offers at `base_fee`.
    pub fn effective_priority(&self, base_fee: GasPrice) -> (priority: GasPrice)
        ensures
            priority == self@.effective_priority(base_fee),
    {
        match self.gas_premium.checked_add(base_fee) {
            Some(offer) => if self.fee_cap <= offer {
                self.fee_cap
            } else {
                offer
            },
            None => self.fee_cap,
        }
    }
}

impl Clone for Transaction {
    fn clone(&self) -> (copy: Self)
        ensures
            copy@ == self@,
    {
        let functions = self.functions.clone();
        proof {
            assert(functions@ =~= self.functions@);
        }
        Transaction {
            from: self.from,
            to: self.to,
            shard_id: self.shard_id,
            nonce: self.nonce,
            functions,
            gas_premium: self.gas_premium,
            fee_cap: self.fee_cap,
            gas_limit: self.gas_limit,
            hash: self.hash,
        }
    }
}

impl PartialEq for Transaction {
    /// Two transactions are equal when their hashes are.
    fn eq(&self, other: &Self) -> (equal: bool) {
        self.hash == other.hash
    }
}

impl PartialEqSpecImpl for Transaction {
    open spec fn obeys_eq_spec() -> bool {
        true
    }

    open spec fn eq_spec(&self, other: &Self) -> bool {
        self.hash == other.hash
    }
}

} // verus!
