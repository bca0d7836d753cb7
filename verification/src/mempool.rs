//! The mempool: pending transactions keyed by hash, with a size limit, a
//! per-sender nonce floor against replay, and fee-first selection for blocks.

use vstd::prelude::*;
use vstd::multiset::Multiset;
use crate::blockchain::{Transaction, tx_valid_spec};
use crate::strmap::{StrMap, has_key, lookup, map_of, keys_distinct};
use crate::tokenomics::MIN_GAS_FEE;

verus! {

broadcast use vstd::seq_lib::group_to_multiset_ensures;

/// The transactions held by a list of entries, in entry order.
pub open spec fn pool_txs(s: Seq<(Seq<char>, Transaction)>) -> Seq<Transaction> {
    s.map_values(|e: (Seq<char>, Transaction)| e.1)
}

/// The nonce floor recorded for `a`, 0 when none was recorded.
pub open spec fn floor_of(m: Map<Seq<char>, u64>, a: Seq<char>) -> u64 {
    if m.contains_key(a) { m[a] } else { 0 }
}

#[derive(Debug)]
pub struct Mempool {
    transactions: StrMap<Transaction>,
    addr_nonces: StrMap<u64>,
    max_size: usize,
}

impl Default for Mempool {
    fn default() -> (r: Self)
        ensures
            r.wf(),
            r.entries() == Seq::<(Seq<char>, Transaction)>::empty(),
            r.nonce_floors() == Map::<Seq<char>, u64>::empty(),
            r.capacity() == 500,
    {
        Self::new(500)
    }
}

impl Mempool {
    /// Pending transactions keyed by their hash, in arrival order.
    pub closed spec fn entries(&self) -> Seq<(Seq<char>, Transaction)> {
        self.transactions@
    }

    /// The last nonce accepted from each sender.
    pub closed spec fn nonce_floors(&self) -> Map<Seq<char>, u64> {
        map_of(self.addr_nonces@)
    }

    pub closed spec fn capacity(&self) -> usize {
        self.max_size
    }

    /// Keys are distinct and each transaction sits under its own hash.
    pub closed spec fn wf(&self) -> bool {
        &&& self.transactions.wf()
        &&& self.addr_nonces.wf()
        &&& forall|i: int| 0 <= i < self.transactions@.len() ==> (#[trigger] self.transactions@[i]).1.tx_hash@ == self.transactions@[i].0
    }

    /// No two pending transactions share a hash, and each sits under its
    /// own hash.
    pub proof fn law_one_entry_per_hash(&self)
        requires
            self.wf(),
        ensures
            keys_distinct(self.entries()),
            forall|i: int| 0 <= i < self.entries().len() ==> (#[trigger] self.entries()[i]).1.tx_hash@ == self.entries()[i].0,
    {
    }

    pub fn new(max_size: usize) -> (r: Self)
        ensures
            r.wf(),
            r.entries() == Seq::<(Seq<char>, Transaction)>::empty(),
            r.nonce_floors() == Map::<Seq<char>, u64>::empty(),
            r.capacity() == max_size,
    {
        let r = Mempool { transactions: StrMap::new(), addr_nonces: StrMap::new(), max_size };
        assert(map_of(r.addr_nonces@) =~= Map::<Seq<char>, u64>::empty());
        r
    }

    /// Admits `tx` when there is room, its hash is new, its gas is at least
    /// the minimum, its nonce is not below the sender's floor and it is valid;
    /// the sender's floor becomes its nonce.
    pub fn add_transaction(&mut self, tx: Transaction) -> (r: Result<(), &'static str>)
        requires
            old(self).wf(),
        ensures
            final(self).wf(),
            final(self).capacity() == old(self).capacity(),
            old(self).entries().len() <= old(self).capacity() ==> final(self).entries().len() <= final(self).capacity(),
            r is Err ==> final(self).entries() == old(self).entries() && final(self).nonce_floors() == old(self).nonce_floors(),
            old(self).entries().len() >= old(self).capacity() ==> r == Err::<(), &'static str>("Mempool full"),
            old(self).entries().len() < old(self).capacity() && has_key(old(self).entries(), tx.tx_hash@)
                ==> r == Err::<(), &'static str>("Duplicate TX"),
            old(self).entries().len() < old(self).capacity() && !has_key(old(self).entries(), tx.tx_hash@)
                && tx.gas_fee < MIN_GAS_FEE ==> r == Err::<(), &'static str>("Gas fee too low"),
            old(self).entries().len() < old(self).capacity() && !has_key(old(self).entries(), tx.tx_hash@)
                && tx.gas_fee >= MIN_GAS_FEE && tx.nonce < floor_of(old(self).nonce_floors(), tx.from@)
                ==> r == Err::<(), &'static str>("Nonce too low (replay)"),
            old(self).entries().len() < old(self).capacity() && !has_key(old(self).entries(), tx.tx_hash@)
                && tx.gas_fee >= MIN_GAS_FEE && tx.nonce >= floor_of(old(self).nonce_floors(), tx.from@)
                && !tx_valid_spec(tx) ==> r == Err::<(), &'static str>("Invalid TX signature"),
            old(self).entries().len() < old(self).capacity() && !has_key(old(self).entries(), tx.tx_hash@)
                && tx.gas_fee >= MIN_GAS_FEE && tx.nonce >= floor_of(old(self).nonce_floors(), tx.from@)
                && tx_valid_spec(tx) ==> {
                &&& r is Ok
                &&& final(self).entries() == old(self).entries().push((tx.tx_hash@, tx))
                &&& final(self).nonce_floors() == old(self).nonce_floors().insert(tx.from@, tx.nonce)
            },
    {
        if self.transactions.len() >= self.max_size {
            return Err("Mempool full");
        }
        if self.transactions.contains_key(tx.tx_hash.as_str()) {
            return Err("Duplicate TX");
        }
        if tx.gas_fee < MIN_GAS_FEE {
            return Err("Gas fee too low");
        }
        let last = match self.addr_nonces.get(tx.from.as_str()) {
            Some(v) => *v,
            None => 0,
        };
        if tx.nonce < last {
            return Err("Nonce too low (replay)");
        }
        if !tx.is_valid() {
            return Err("Invalid TX signature");
        }
        let ghost old_entries = self.transactions@;
        let ghost t = tx;
        self.addr_nonces.insert(tx.from.clone(), tx.nonce);
        let key = tx.tx_hash.clone();
        self.transactions.insert(key, tx);
        assert forall|i: int| 0 <= i < self.transactions@.len() implies (#[trigger] self.transactions@[i]).1.tx_hash@ == self.transactions@[i].0 by {
            if i < old_entries.len() {
                assert(self.transactions@[i] == old_entries[i]);
            }
        }
        Ok(())
    }

    /// Takes out up to `n` transactions, highest gas fee first.
    pub fn pop_transactions(&mut self, n: usize) -> (r: Vec<Transaction>)
        requires
            old(self).wf(),
        ensures
            final(self).wf(),
            final(self).capacity() == old(self).capacity(),
            final(self).nonce_floors() == old(self).nonce_floors(),
            r@.len() == if n < old(self).entries().len() { n as int } else { old(self).entries().len() as int },
            forall|i: int, j: int| 0 <= i < j < r@.len() ==> r@[i].gas_fee >= r@[j].gas_fee,
            forall|i: int, j: int| 0 <= i < r@.len() && 0 <= j < final(self).entries().len()
                ==> final(self).entries()[j].1.gas_fee <= r@[i].gas_fee,
            pool_txs(old(self).entries()).to_multiset() == pool_txs(final(self).entries()).to_multiset().add(r@.to_multiset()),
    {
        let ghost orig = pool_txs(self.transactions@);
        let k = if n < self.transactions.len() { n } else { self.transactions.len() };
        let mut out: Vec<Transaction> = Vec::new();
        let mut c: usize = 0;
        while c < k
            invariant
                k <= old(self).entries().len(),
                k == if n < old(self).entries().len() { n as int } else { old(self).entries().len() as int },
                c <= k,
                out@.len() == c,
                self.transactions@.len() == old(self).entries().len() - c,
                self.wf(),
                self.addr_nonces@ == old(self).addr_nonces@,
                self.max_size == old(self).max_size,
                orig == pool_txs(old(self).entries()),
                orig.to_multiset() == pool_txs(self.transactions@).to_multiset().add(out@.to_multiset()),
                forall|i: int, j: int| 0 <= i < j < out@.len() ==> out@[i].gas_fee >= out@[j].gas_fee,
                forall|i: int, j: int| 0 <= i < out@.len() && 0 <= j < self.transactions@.len()
                    ==> self.transactions@[j].1.gas_fee <= out@[i].gas_fee,
            decreases k - c,
        {
            let len = self.transactions.len();
            let mut best: usize = 0;
            let mut j: usize = 1;
            while j < len
                invariant
                    len == self.transactions@.len(),
                    len >= 1,
                    best < len,
                    1 <= j <= len,
                    forall|t: int| 0 <= t < j ==> self.transactions@[t].1.gas_fee <= self.transactions@[best as int].1.gas_fee,
                decreases len - j,
            {
                if self.transactions.value_at(j).gas_fee > self.transactions.value_at(best).gas_fee {
                    best = j;
                }
                j = j + 1;
            }
            let ghost before = self.transactions@;
            let ghost vals = pool_txs(before);
            let (_, tx) = self.transactions.remove_at(best);
            assert(pool_txs(self.transactions@) =~= vals.remove(best as int));
            assert(vals[best as int] == tx);
            let ghost out_before = out@;
            out.push(tx);
            assert(orig.to_multiset() =~= pool_txs(self.transactions@).to_multiset().add(out@.to_multiset()));
            assert forall|i: int, j2: int| 0 <= i < out@.len() && 0 <= j2 < self.transactions@.len()
                implies self.transactions@[j2].1.gas_fee <= out@[i].gas_fee by {
                let src = if j2 < best { j2 } else { j2 + 1 };
                assert(self.transactions@[j2] == before[src]);
                if i < out_before.len() {
                    assert(out@[i] == out_before[i]);
                }
            }
            assert forall|i: int, j2: int| 0 <= i < j2 < out@.len() implies out@[i].gas_fee >= out@[j2].gas_fee by {
                if j2 == out_before.len() {
                    assert(out@[i] == out_before[i]);
                    assert(before[best as int].1.gas_fee <= out_before[i].gas_fee);
                } else {
                    assert(out@[i] == out_before[i]);
                    assert(out@[j2] == out_before[j2]);
                }
            }
            c = c + 1;
        }
        out
    }

    pub fn len(&self) -> (n: usize)
        ensures
            n == self.entries().len(),
    {
        self.transactions.len()
    }

    pub fn is_empty(&self) -> (b: bool)
        ensures
            b == (self.entries().len() == 0),
    {
        self.transactions.len() == 0
    }

    /// The pending transactions, in entry order.
    pub fn peek(&self) -> (r: Vec<&Transaction>)
        ensures
            r@.len() == self.entries().len(),
            forall|i: int| 0 <= i < r@.len() ==> *r@[i] == self.entries()[i].1,
    {
        self.transactions.values()
    }
}

// ── Laws ─────────────────────────────────────────────────────────────────────

/// A transaction just admitted is held under its hash, so offering it again
/// is refused as a duplicate (when there is room) or as the pool being full.
pub proof fn law_admitted_is_duplicate(entries: Seq<(Seq<char>, Transaction)>, tx: Transaction)
    ensures
        has_key(entries.push((tx.tx_hash@, tx)), tx.tx_hash@),
{
    assert(crate::strmap::key_at(entries.push((tx.tx_hash@, tx)), tx.tx_hash@, entries.len() as int));
}

} // verus!
