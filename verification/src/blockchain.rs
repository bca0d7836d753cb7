//! Transactions, blocks, the balance ledger and the chain itself: hashing,
//! the Merkle root, signature and address checks, chain validation and the
//! rules for appending a block with its fee distribution and reward.

use vstd::prelude::*;
use vstd::utf8::encode_utf8;
use crate::crypto::{decode_hex, ed25519_verify, ed25519_verifies, hex_decode_spec, sha256, sha256_hex,
    sha256_hex_spec, sha256_spec, encode_hex, hex_lower};
use crate::text::{decimal, push_decimal, str_eq};
use crate::tokenomics::{BURN_ADDRESS, MIN_GAS_FEE, DEV_WALLET, LIQUIDITY_LOCK_VAULT, MINING_POOL_WALLET, MARKETING_WALLET,
    DECIMALS, SupplyTracker, split_fee_with_state, split_spec, block_reward_at, reward_spec, BURN_CAP};
use crate::strmap::{StrMap, map_of, lookup, has_key, lemma_lookup_at};

verus! {

/// Amounts are micro-DVC.
pub type Amount = u128;

// ── Transaction ──────────────────────────────────────────────────────────────

#[derive(Debug, Clone)]
pub struct Transaction {
    pub tx_hash: String,
    pub from: String,
    pub to: String,
    pub amount: Amount,
    pub gas_fee: Amount,
    pub nonce: u64,
    pub data: Option<String>,
    pub signature: String,
    pub public_key: String,
    pub timestamp: u64,
}

/// `from:to:amount:gas_fee:nonce:timestamp`, the text that is hashed and signed.
pub open spec fn payload_text(from: Seq<char>, to: Seq<char>, amount: u128, gas_fee: u128, nonce: u64, timestamp: u64) -> Seq<char> {
    from + ":"@ + to + ":"@ + decimal(amount as nat) + ":"@ + decimal(gas_fee as nat) + ":"@
        + decimal(nonce as nat) + ":"@ + decimal(timestamp as nat)
}

/// The payload of a transaction.
pub open spec fn tx_payload(tx: Transaction) -> Seq<char> {
    payload_text(tx.from@, tx.to@, tx.amount, tx.gas_fee, tx.nonce, tx.timestamp)
}

/// The transaction hash: hex SHA-256 of the payload's UTF-8 bytes.
pub open spec fn tx_hash_spec(tx: Transaction) -> Seq<char> {
    sha256_hex_spec(encode_utf8(tx_payload(tx)))
}

/// The hex key `pk_hex` decodes to 32 bytes, the hex signature `sig_hex` to
/// 64 bytes, and Ed25519 accepts that signature on the UTF-8 bytes of `msg`.
pub open spec fn sig_check(pk_hex: Seq<char>, sig_hex: Seq<char>, msg: Seq<char>) -> bool {
    let pk = hex_decode_spec(encode_utf8(pk_hex));
    let sig = hex_decode_spec(encode_utf8(sig_hex));
    &&& pk is Some
    &&& pk->0.len() == 32
    &&& sig is Some
    &&& sig->0.len() == 64
    &&& ed25519_verifies(pk->0, encode_utf8(msg), sig->0)
}

/// The signature of a transaction holds on its hash.
pub open spec fn signature_ok(tx: Transaction) -> bool {
    sig_check(tx.public_key@, tx.signature@, tx_hash_spec(tx))
}

/// The bytes of a hex key, or none where the key is no hex.
pub open spec fn key_bytes_of(pk_hex: Seq<char>) -> Seq<u8> {
    match hex_decode_spec(encode_utf8(pk_hex)) {
        Some(b) => b,
        None => Seq::empty(),
    }
}

/// `db1x` and the first 32 hex digits of SHA-256 applied twice to the key
/// bytes.
pub open spec fn address_of_key(pk_hex: Seq<char>) -> Seq<char> {
    "db1x"@ + sha256_hex_spec(sha256_spec(key_bytes_of(pk_hex))).subrange(0, 32)
}

/// The address that a transaction's public key stands for.
pub open spec fn sender_address_spec(tx: Transaction) -> Seq<char> {
    address_of_key(tx.public_key@)
}

/// A transaction that moves value, pays at least the minimum gas, is not sent
/// from the burn address, carries a valid signature and comes from the
/// address of its key.
pub open spec fn tx_valid_spec(tx: Transaction) -> bool {
    &&& tx.amount != 0
    &&& tx.gas_fee >= MIN_GAS_FEE
    &&& tx.from@ != BURN_ADDRESS@
    &&& signature_ok(tx)
    &&& sender_address_spec(tx) == tx.from@
}

impl Transaction {
    /// A field-by-field copy.
    pub fn copy(&self) -> (r: Self)
        ensures
            r == *self,
    {
        Transaction {
            tx_hash: self.tx_hash.clone(),
            from: self.from.clone(),
            to: self.to.clone(),
            amount: self.amount,
            gas_fee: self.gas_fee,
            nonce: self.nonce,
            data: match &self.data {
                Some(d) => Some(d.clone()),
                None => None,
            },
            signature: self.signature.clone(),
            public_key: self.public_key.clone(),
            timestamp: self.timestamp,
        }
    }

    pub fn compute_hash(&self) -> (h: String)
        ensures
            h@ == tx_hash_spec(*self),
            h@.len() == 64,
    {
        let mut payload = String::new();
        payload.append(self.from.as_str());
        payload.append(":");
        payload.append(self.to.as_str());
        payload.append(":");
        push_decimal(&mut payload, self.amount);
        payload.append(":");
        push_decimal(&mut payload, self.gas_fee);
        payload.append(":");
        push_decimal(&mut payload, self.nonce as u128);
        payload.append(":");
        push_decimal(&mut payload, self.timestamp as u128);
        assert(payload@ =~= tx_payload(*self));
        sha256_hex(payload.as_str().as_bytes())
    }

    /// Checks the Ed25519 signature against the embedded public key.
    pub fn verify_signature(&self) -> (ok: bool)
        ensures
            ok == signature_ok(*self),
    {
        let pk = match decode_hex(self.public_key.as_str()) {
            Some(b) => b,
            None => return false,
        };
        if pk.len() != 32 {
            return false;
        }
        let sig = match decode_hex(self.signature.as_str()) {
            Some(b) => b,
            None => return false,
        };
        if sig.len() != 64 {
            return false;
        }
        let msg = self.compute_hash();
        ed25519_verify(pk.as_slice(), msg.as_str().as_bytes(), sig.as_slice())
    }

    /// The address that the embedded public key stands for.
    pub fn sender_address(&self) -> (a: String)
        ensures
            a@ == sender_address_spec(*self),
            a@.len() == 36,
    {
        let pk = match decode_hex(self.public_key.as_str()) {
            Some(b) => b,
            None => Vec::new(),
        };
        let inner = sha256(pk.as_slice());
        let digest = sha256_hex(inner.as_slice());
        let mut a = String::new();
        a.append("db1x");
        let tail = digest.as_str().substring_char(0, 32);
        a.append(tail);
        proof {
            reveal_strlit("db1x");
            assert(tail@.len() == 32);
        }
        a
    }

    /// Full validity: amounts, sender, signature and address.
    pub fn is_valid(&self) -> (ok: bool)
        ensures
            ok == tx_valid_spec(*self),
    {
        if self.amount == 0 {
            return false;
        }
        if self.gas_fee < MIN_GAS_FEE {
            return false;
        }
        if str_eq(self.from.as_str(), BURN_ADDRESS) {
            return false;
        }
        if !self.verify_signature() {
            return false;
        }
        let sender = self.sender_address();
        if sender != self.from {
            return false;
        }
        true
    }
}

// ── Block ────────────────────────────────────────────────────────────────────

#[derive(Debug, Clone)]
pub struct Block {
    pub height: u64,
    pub timestamp: u64,
    pub previous_hash: String,
    pub block_hash: String,
    pub merkle_root: String,
    pub transactions: Vec<Transaction>,
    pub validator: String,
    pub nonce: u64,
    pub difficulty: u32,
    pub block_reward: Amount,
    pub total_fees: Amount,
    pub ai_score: u32,
    pub dao_signature: String,
}

/// `height:timestamp:previous_hash:merkle_root:nonce:validator`.
pub open spec fn block_payload(b: Block) -> Seq<char> {
    decimal(b.height as nat) + ":"@ + decimal(b.timestamp as nat) + ":"@ + b.previous_hash@ + ":"@
        + b.merkle_root@ + ":"@ + decimal(b.nonce as nat) + ":"@ + b.validator@
}

/// The block hash: hex SHA-256 of the payload's UTF-8 bytes.
pub open spec fn block_hash_spec(b: Block) -> Seq<char> {
    sha256_hex_spec(encode_utf8(block_payload(b)))
}

/// Hex SHA-256 of a text's UTF-8 bytes.
pub open spec fn text_hash(s: Seq<char>) -> Seq<char> {
    sha256_hex_spec(encode_utf8(s))
}

/// One level up the Merkle tree: adjacent hashes paired and hashed, the last
/// one paired with itself when the count is odd.
pub open spec fn merkle_parent_layer(layer: Seq<Seq<char>>) -> Seq<Seq<char>> {
    let n = layer.len();
    Seq::new(
        ((n + 1) / 2) as nat,
        |i: int| text_hash(layer[2 * i] + if 2 * i + 1 < n { layer[2 * i + 1] } else { layer[2 * i] }),
    )
}

/// Folds a layer of hashes up to the single root (empty text for no hashes).
pub open spec fn merkle_fold(layer: Seq<Seq<char>>) -> Seq<char>
    decreases layer.len(),
{
    if layer.len() == 0 {
        Seq::empty()
    } else if layer.len() == 1 {
        layer[0]
    } else {
        merkle_fold(merkle_parent_layer(layer))
    }
}

/// The Merkle root of a list of transactions: the hash of `empty` for none,
/// else the fold of their hashes.
pub open spec fn merkle_root_spec(txs: Seq<Transaction>) -> Seq<char> {
    if txs.len() == 0 {
        text_hash("empty"@)
    } else {
        merkle_fold(txs.map_values(|tx: Transaction| tx_hash_spec(tx)))
    }
}

/// The first `n` characters of `s` are all `0`.
pub open spec fn zero_prefix(s: Seq<char>, n: int) -> bool {
    n <= s.len() && forall|i: int| 0 <= i < n ==> s[i] == '0'
}

/// The value of a hex digit (either case), if `c` is one.
pub open spec fn hex_digit_value(c: char) -> Option<int> {
    if '0' <= c && c <= '9' {
        Some(c as int - 48)
    } else if 'a' <= c && c <= 'f' {
        Some(c as int - 87)
    } else if 'A' <= c && c <= 'F' {
        Some(c as int - 55)
    } else {
        None
    }
}

/// The hex text `s` begins with `bits` zero bits: its first `bits / 4`
/// digits are `0` and, where `bits` is no multiple of four, the next digit's
/// top `bits % 4` bits are zero too.
pub open spec fn zero_bits(s: Seq<char>, bits: int) -> bool {
    let full = bits / 4;
    let rest = bits % 4;
    &&& zero_prefix(s, full)
    &&& (rest != 0 ==> full < s.len() && (hex_digit_value(s[full]) matches Some(v)
        && v < if rest == 1 { 8int } else if rest == 2 { 4int } else { 2int }))
}

/// The block hash begins with `difficulty` zero bits.
pub open spec fn meets_difficulty_spec(b: Block) -> bool {
    zero_bits(b.block_hash@, b.difficulty as int)
}

/// The views of a list of strings.
pub open spec fn texts(v: Seq<String>) -> Seq<Seq<char>> {
    v.map_values(|s: String| s@)
}

/// Whether the first `n` characters of `s` are `0`.
pub fn has_zero_prefix(s: &str, n: usize) -> (r: bool)
    ensures
        r == zero_prefix(s@, n as int),
{
    let cs = crate::text::chars_of(s);
    if n > cs.len() {
        return false;
    }
    let mut i: usize = 0;
    while i < n
        invariant
            n <= cs@.len(),
            cs@ == s@,
            i <= n,
            forall|k: int| 0 <= k < i ==> cs@[k] == '0',
        decreases n - i,
    {
        if cs[i] != '0' {
            return false;
        }
        i = i + 1;
    }
    true
}

/// The value of the hex digit `c`, if it is one.
fn digit_value(c: char) -> (r: Option<u32>)
    ensures
        match hex_digit_value(c) {
            Some(v) => r == Some(v as u32),
            None => r is None,
        },
{
    if '0' <= c && c <= '9' {
        Some((c as u32) - 48)
    } else if 'a' <= c && c <= 'f' {
        Some((c as u32) - 87)
    } else if 'A' <= c && c <= 'F' {
        Some((c as u32) - 55)
    } else {
        None
    }
}

/// Whether the hex text `s` begins with `bits` zero bits.
pub fn has_zero_bits(s: &str, bits: u32) -> (r: bool)
    ensures
        r == zero_bits(s@, bits as int),
{
    let full = (bits / 4) as usize;
    let rest = bits % 4;
    if !has_zero_prefix(s, full) {
        return false;
    }
    if rest == 0 {
        return true;
    }
    let cs = crate::text::chars_of(s);
    if full >= cs.len() {
        return false;
    }
    let limit: u32 = if rest == 1 { 8 } else if rest == 2 { 4 } else { 2 };
    match digit_value(cs[full]) {
        Some(v) => v < limit,
        None => false,
    }
}

impl Block {
    pub fn compute_hash(&self) -> (h: String)
        ensures
            h@ == block_hash_spec(*self),
            h@.len() == 64,
    {
        let mut payload = String::new();
        push_decimal(&mut payload, self.height as u128);
        payload.append(":");
        push_decimal(&mut payload, self.timestamp as u128);
        payload.append(":");
        payload.append(self.previous_hash.as_str());
        payload.append(":");
        payload.append(self.merkle_root.as_str());
        payload.append(":");
        push_decimal(&mut payload, self.nonce as u128);
        payload.append(":");
        payload.append(self.validator.as_str());
        assert(payload@ =~= block_payload(*self));
        sha256_hex(payload.as_str().as_bytes())
    }

    /// Binary Merkle tree over the transaction hashes.
    pub fn compute_merkle_root(txs: &[Transaction]) -> (root: String)
        ensures
            root@ == merkle_root_spec(txs@),
            root@.len() == 64,
    {
        if txs.len() == 0 {
            proof { reveal_strlit("empty"); }
            return sha256_hex("empty".as_bytes());
        }
        let ghost hashes = txs@.map_values(|tx: Transaction| tx_hash_spec(tx));
        let mut layer: Vec<String> = Vec::new();
        let mut i: usize = 0;
        while i < txs.len()
            invariant
                i <= txs@.len(),
                hashes == txs@.map_values(|tx: Transaction| tx_hash_spec(tx)),
                layer@.len() == i,
                forall|k: int| 0 <= k < i ==> #[trigger] layer@[k]@ == hashes[k],
                forall|k: int| 0 <= k < i ==> (#[trigger] layer@[k])@.len() == 64,
            decreases txs@.len() - i,
        {
            let h = txs[i].compute_hash();
            assert(h@ == hashes[i as int]);
            layer.push(h);
            i = i + 1;
        }
        assert(texts(layer@) =~= hashes);
        while layer.len() > 1
            invariant
                layer@.len() >= 1,
                merkle_fold(texts(layer@)) == merkle_fold(hashes),
                forall|k: int| 0 <= k < layer@.len() ==> (#[trigger] layer@[k])@.len() == 64,
            decreases layer@.len(),
        {
            let n = layer.len();
            let ghost cur = texts(layer@);
            let half = n / 2 + n % 2;
            let mut next: Vec<String> = Vec::new();
            let mut j: usize = 0;
            while j < half
                invariant
                    n == layer@.len(),
                    n > 1,
                    half == (n + 1) / 2,
                    forall|k: int| 0 <= k < n ==> #[trigger] cur[k] == layer@[k]@,
                    cur == texts(layer@),
                    j <= half,
                    next@.len() == j,
                    forall|k: int| 0 <= k < j ==> #[trigger] next@[k]@ == merkle_parent_layer(cur)[k],
                    forall|k: int| 0 <= k < j ==> (#[trigger] next@[k])@.len() == 64,
                decreases half - j,
            {
                let mut combined = layer[2 * j].clone();
                if 2 * j + 1 < n {
                    combined.append(layer[2 * j + 1].as_str());
                } else {
                    combined.append(layer[2 * j].as_str());
                }
                let h = sha256_hex(combined.as_str().as_bytes());
                assert(combined@ == cur[2 * j as int] + if 2 * j + 1 < n { cur[2 * j + 1] } else { cur[2 * j as int] });
                assert(h@ == merkle_parent_layer(cur)[j as int]);
                next.push(h);
                j = j + 1;
            }
            assert(texts(next@) =~= merkle_parent_layer(cur));
            layer = next;
        }
        assert(merkle_fold(texts(layer@)) == texts(layer@)[0]);
        layer[0].clone()
    }

    /// The stored hash is the recomputed one.
    pub fn verify_hash(&self) -> (ok: bool)
        ensures
            ok == (self.block_hash@ == block_hash_spec(*self)),
    {
        let h = self.compute_hash();
        self.block_hash == h
    }

    /// The hash, read as hex, has `difficulty` leading zero bits.
    pub fn meets_difficulty(&self) -> (ok: bool)
        ensures
            ok == meets_difficulty_spec(*self),
    {
        has_zero_bits(self.block_hash.as_str(), self.difficulty)
    }
}

// ── Balance ledger ───────────────────────────────────────────────────────────

/// Balance under `a`, 0 for an address never seen.
pub open spec fn bal_of(m: Map<Seq<char>, u128>, a: Seq<char>) -> u128 {
    if m.contains_key(a) { m[a] } else { 0 }
}

/// Nonce under `a`, 0 for an address never seen.
pub open spec fn nonce_of(m: Map<Seq<char>, u64>, a: Seq<char>) -> u64 {
    if m.contains_key(a) { m[a] } else { 0 }
}

/// `a` credited with `x` (an entry is made where there was none).
pub open spec fn credited(m: Map<Seq<char>, u128>, a: Seq<char>, x: int) -> Map<Seq<char>, u128> {
    m.insert(a, (bal_of(m, a) + x) as u128)
}

#[derive(Debug)]
pub struct Ledger {
    balances: StrMap<Amount>,
    nonces: StrMap<u64>,
}

impl Default for Ledger {
    fn default() -> (r: Self)
        ensures
            r.wf(),
            r.balances() == Map::<Seq<char>, u128>::empty(),
            r.nonces() == Map::<Seq<char>, u64>::empty(),
    {
        let r = Ledger { balances: StrMap::new(), nonces: StrMap::new() };
        assert(map_of(r.balances@) =~= Map::<Seq<char>, u128>::empty());
        assert(map_of(r.nonces@) =~= Map::<Seq<char>, u64>::empty());
        r
    }
}

impl Ledger {
    /// Balances by address.
    pub closed spec fn balances(&self) -> Map<Seq<char>, u128> {
        map_of(self.balances@)
    }

    /// Next expected nonce by address.
    pub closed spec fn nonces(&self) -> Map<Seq<char>, u64> {
        map_of(self.nonces@)
    }

    pub closed spec fn wf(&self) -> bool {
        self.balances.wf() && self.nonces.wf()
    }

    /// A copy with the same balances and nonces.
    pub fn duplicate(&self) -> (r: Self)
        requires
            self.wf(),
        ensures
            r.wf(),
            r.balances() == self.balances(),
            r.nonces() == self.nonces(),
    {
        Ledger { balances: self.balances.duplicate(), nonces: self.nonces.duplicate() }
    }

    pub fn balance(&self, addr: &str) -> (r: Amount)
        requires
            self.wf(),
        ensures
            r == bal_of(self.balances(), addr@),
    {
        match self.balances.get(addr) {
            Some(v) => *v,
            None => 0,
        }
    }

    pub fn nonce(&self, addr: &str) -> (r: u64)
        requires
            self.wf(),
        ensures
            r == nonce_of(self.nonces(), addr@),
    {
        match self.nonces.get(addr) {
            Some(v) => *v,
            None => 0,
        }
    }

    pub fn credit(&mut self, addr: &str, amount: Amount)
        requires
            old(self).wf(),
            bal_of(old(self).balances(), addr@) + amount <= u128::MAX,
        ensures
            final(self).wf(),
            final(self).balances() == credited(old(self).balances(), addr@, amount as int),
            final(self).nonces() == old(self).nonces(),
    {
        let cur = self.balance(addr);
        self.balances.insert(addr.to_owned(), cur + amount);
    }

    /// Takes `amount` from `addr` when the balance covers it.
    pub fn debit(&mut self, addr: &str, amount: Amount) -> (ok: bool)
        requires
            old(self).wf(),
        ensures
            final(self).wf(),
            ok == (bal_of(old(self).balances(), addr@) >= amount),
            final(self).balances() == old(self).balances().insert(
                addr@,
                if ok { (bal_of(old(self).balances(), addr@) - amount) as u128 } else { bal_of(old(self).balances(), addr@) },
            ),
            final(self).nonces() == old(self).nonces(),
    {
        let cur = self.balance(addr);
        if cur < amount {
            self.balances.insert(addr.to_owned(), cur);
            return false;
        }
        self.balances.insert(addr.to_owned(), cur - amount);
        true
    }

    pub fn increment_nonce(&mut self, addr: &str)
        requires
            old(self).wf(),
            nonce_of(old(self).nonces(), addr@) < u64::MAX,
        ensures
            final(self).wf(),
            final(self).nonces() == old(self).nonces().insert(addr@, (nonce_of(old(self).nonces(), addr@) + 1) as u64),
            final(self).balances() == old(self).balances(),
    {
        let cur = self.nonce(addr);
        self.nonces.insert(addr.to_owned(), cur + 1);
    }

    /// Applies `txs` in order as `run_txs` describes, stopping at the first
    /// failing transaction; returns the gas collected or the error.
    fn apply_transactions(&mut self, txs: &Vec<Transaction>) -> (r: Result<u128, &'static str>)
        requires
            old(self).wf(),
            run_txs(old(self).balances(), old(self).nonces(), txs@).fits,
        ensures
            final(self).wf(),
            final(self).balances() == run_txs(old(self).balances(), old(self).nonces(), txs@).balances,
            final(self).nonces() == run_txs(old(self).balances(), old(self).nonces(), txs@).nonces,
            match r {
                Ok(f) => run_txs(old(self).balances(), old(self).nonces(), txs@).error is None
                    && f == run_txs(old(self).balances(), old(self).nonces(), txs@).fees,
                Err(e) => run_txs(old(self).balances(), old(self).nonces(), txs@).error == Some(e),
            },
    {
        let ghost b0 = self.balances();
        let ghost n0 = self.nonces();
        let ghost all = txs@;
        let mut total_fees: Amount = 0;
        let m = txs.len();
        let mut i: usize = 0;
        assert(all.take(0) =~= Seq::<Transaction>::empty());
        while i < m
            invariant
                m == all.len(),
                all == txs@,
                b0 == old(self).balances(),
                n0 == old(self).nonces(),
                i <= m,
                run_txs(b0, n0, all).fits,
                run_txs(b0, n0, all.take(i as int)).error is None,
                run_txs(b0, n0, all.take(i as int)).fits,
                self.wf(),
                self.balances() == run_txs(b0, n0, all.take(i as int)).balances,
                self.nonces() == run_txs(b0, n0, all.take(i as int)).nonces,
                total_fees == run_txs(b0, n0, all.take(i as int)).fees,
            decreases m - i,
        {
            let ghost prev = run_txs(b0, n0, all.take(i as int));
            assert(all.take(i + 1).drop_last() =~= all.take(i as int));
            assert(all.take(i + 1).last() == all[i as int]);
            assert(run_txs(b0, n0, all.take(i + 1)) == tx_step(prev, all[i as int]));
            let tx = &txs[i];
            if !tx.is_valid() {
                proof {
                    assert(!tx_valid_spec(all[i as int]));
                    assert(tx_step(prev, all[i as int]).error is Some);
                    assert(tx_step(prev, all[i as int]).balances == prev.balances);
                    lemma_run_stops(b0, n0, all, i + 1);
                    assert(run_txs(b0, n0, all).balances == prev.balances);
                    assert(self.balances() == prev.balances);
                }
                return Err("Invalid transaction signature");
            }
            proof {
                // The whole run fits, so this step does too.
                if !tx_step(prev, all[i as int]).fits {
                    lemma_run_stops(b0, n0, all, i + 1);
                }
            }
            let total_cost = tx.amount + tx.gas_fee;
            let expected_nonce = self.nonce(tx.from.as_str());
            if tx.nonce != expected_nonce {
                proof { lemma_run_stops(b0, n0, all, i + 1); }
                return Err("Invalid nonce");
            }
            if !self.debit(tx.from.as_str(), total_cost) {
                proof { lemma_run_stops(b0, n0, all, i + 1); }
                return Err("Insufficient balance");
            }
            self.credit(tx.to.as_str(), tx.amount);
            self.increment_nonce(tx.from.as_str());
            total_fees = total_fees + tx.gas_fee;
            i = i + 1;
        }
        assert(all.take(m as int) =~= all);
        Ok(total_fees)
    }
}

// ── Applying a block's transactions ──────────────────────────────────────────

/// Where applying transactions in order has got to: the first error met (if
/// any), the balances, nonces and fees so far, and whether every sum stayed
/// within the integer types.
pub struct TxRun {
    pub error: Option<&'static str>,
    pub balances: Map<Seq<char>, u128>,
    pub nonces: Map<Seq<char>, u64>,
    pub fees: int,
    pub fits: bool,
}

/// Applies one transaction: it must be valid, carry the sender's next nonce
/// and be covered by the sender's balance; then amount and gas leave the
/// sender, the amount reaches the receiver and the sender's nonce advances.
pub open spec fn tx_step(r: TxRun, tx: Transaction) -> TxRun {
    let cost = tx.amount + tx.gas_fee;
    let from_bal = bal_of(r.balances, tx.from@);
    let from_nonce = nonce_of(r.nonces, tx.from@);
    if !tx_valid_spec(tx) {
        TxRun { error: Some("Invalid transaction signature"), ..r }
    } else if cost > u128::MAX {
        TxRun { fits: false, ..r }
    } else if tx.nonce != from_nonce {
        TxRun { error: Some("Invalid nonce"), ..r }
    } else if from_bal < cost {
        TxRun { error: Some("Insufficient balance"), balances: r.balances.insert(tx.from@, from_bal), ..r }
    } else {
        let b1 = r.balances.insert(tx.from@, (from_bal - cost) as u128);
        if bal_of(b1, tx.to@) + tx.amount > u128::MAX || from_nonce == u64::MAX || r.fees + tx.gas_fee > u128::MAX {
            TxRun { fits: false, ..r }
        } else {
            TxRun {
                error: None,
                balances: credited(b1, tx.to@, tx.amount as int),
                nonces: r.nonces.insert(tx.from@, (from_nonce + 1) as u64),
                fees: r.fees + tx.gas_fee,
                fits: true,
            }
        }
    }
}

/// Applies `txs` in order from the given balances and nonces, stopping at the
/// first error.
pub open spec fn run_txs(b: Map<Seq<char>, u128>, n: Map<Seq<char>, u64>, txs: Seq<Transaction>) -> TxRun
    decreases txs.len(),
{
    if txs.len() == 0 {
        TxRun { error: None, balances: b, nonces: n, fees: 0, fits: true }
    } else {
        let r = run_txs(b, n, txs.drop_last());
        if r.error is Some || !r.fits { r } else { tx_step(r, txs.last()) }
    }
}

/// Once a prefix stops (error or overflow), the whole run is that prefix's.
pub proof fn lemma_run_stops(b: Map<Seq<char>, u128>, n: Map<Seq<char>, u64>, txs: Seq<Transaction>, k: int)
    requires
        0 <= k <= txs.len(),
        run_txs(b, n, txs.take(k)).error is Some || !run_txs(b, n, txs.take(k)).fits,
    ensures
        run_txs(b, n, txs) == run_txs(b, n, txs.take(k)),
    decreases txs.len() - k,
{
    if k < txs.len() {
        assert(txs.take(k + 1).drop_last() =~= txs.take(k));
        lemma_run_stops(b, n, txs, k + 1);
    } else {
        assert(txs.take(k) =~= txs);
    }
}

/// Balances after the fees of a block are shared out by the schedule in
/// force (`stopped` once the burn cap was reached): miner, dev fund, burn
/// address, liquidity vault and marketing fund; then, where the reward could
/// be minted, the reward paid to the validator.
pub open spec fn settle_balances(b: Map<Seq<char>, u128>, validator: Seq<char>, fees: int, stopped: bool, minted: bool, reward: int) -> Map<Seq<char>, u128> {
    let split = split_spec(fees, stopped);
    let b1 = credited(b, validator, split.0);
    let b2 = credited(b1, DEV_WALLET@, split.1);
    let b3 = credited(b2, BURN_ADDRESS@, split.2);
    let b4 = credited(b3, LIQUIDITY_LOCK_VAULT@, split.3);
    let b5 = credited(b4, MARKETING_WALLET@, split.4);
    if minted { credited(b5, validator, reward) } else { b5 }
}

/// Every credit of the settlement stays within `u128`.
pub open spec fn settle_fits(b: Map<Seq<char>, u128>, validator: Seq<char>, fees: int, stopped: bool, minted: bool, reward: int) -> bool {
    let split = split_spec(fees, stopped);
    let b1 = credited(b, validator, split.0);
    let b2 = credited(b1, DEV_WALLET@, split.1);
    let b3 = credited(b2, BURN_ADDRESS@, split.2);
    let b4 = credited(b3, LIQUIDITY_LOCK_VAULT@, split.3);
    let b5 = credited(b4, MARKETING_WALLET@, split.4);
    &&& fees * 55 <= u128::MAX
    &&& bal_of(b, validator) + split.0 <= u128::MAX
    &&& bal_of(b1, DEV_WALLET@) + split.1 <= u128::MAX
    &&& bal_of(b2, BURN_ADDRESS@) + split.2 <= u128::MAX
    &&& bal_of(b3, LIQUIDITY_LOCK_VAULT@) + split.3 <= u128::MAX
    &&& bal_of(b4, MARKETING_WALLET@) + split.4 <= u128::MAX
    &&& (minted ==> bal_of(b5, validator) + reward <= u128::MAX)
}

/// Sixty-four `0` characters.
pub open spec fn zero_hash() -> Seq<char> {
    Seq::new(64, |i: int| '0')
}

fn zero_hash_string() -> (s: String)
    ensures
        s@ == zero_hash(),
{
    let mut s = String::new();
    let mut i: usize = 0;
    while i < 64
        invariant
            i <= 64,
            s@ == Seq::new(i as nat, |k: int| '0'),
        decreases 64 - i,
    {
        proof { reveal_strlit("0"); }
        s.append("0");
        i = i + 1;
        assert(s@ =~= Seq::new(i as nat, |k: int| '0'));
    }
    s
}

// ── Blockchain ───────────────────────────────────────────────────────────────

/// `curr` follows `prev`: its stored hash is its recomputed hash, it links to
/// `prev`'s hash, its Merkle root is that of its transactions, and every one
/// of its transactions is valid.
#[verifier::opaque]
pub open spec fn block_links(prev: Block, curr: Block) -> bool {
    &&& curr.block_hash@ == block_hash_spec(curr)
    &&& curr.previous_hash@ == prev.block_hash@
    &&& curr.merkle_root@ == merkle_root_spec(curr.transactions@)
    &&& forall|j: int| 0 <= j < curr.transactions@.len() ==> tx_valid_spec(#[trigger] curr.transactions@[j])
}

/// Whether `curr` follows `prev` in the sense of `block_links`.
pub fn block_follows(prev: &Block, curr: &Block) -> (ok: bool)
    ensures
        ok == block_links(*prev, *curr),
{
    reveal(block_links);
    if !curr.verify_hash() {
        return false;
    }
    if curr.previous_hash != prev.block_hash {
        return false;
    }
    let root = Block::compute_merkle_root(curr.transactions.as_slice());
    if curr.merkle_root != root {
        return false;
    }
    let m = curr.transactions.len();
    let mut j: usize = 0;
    while j < m
        invariant
            m == curr.transactions@.len(),
            j <= m,
            forall|t: int| 0 <= t < j ==> tx_valid_spec(#[trigger] curr.transactions@[t]),
        decreases m - j,
    {
        if !curr.transactions[j].is_valid() {
            assert(!tx_valid_spec(curr.transactions@[j as int]));
            reveal(block_links);
            return false;
        }
        j = j + 1;
    }
    true
}

/// Every block after the first follows its predecessor.
pub open spec fn chain_valid_spec(chain: Seq<Block>) -> bool {
    forall|i: int| 1 <= i < chain.len() ==> block_links(chain[i - 1], #[trigger] chain[i])
}

/// Block `b` of `chain` has a transaction at position `k`.
pub open spec fn tx_at(chain: Seq<Block>, b: int, k: int) -> bool {
    0 <= b < chain.len() && 0 <= k < chain[b].transactions@.len()
}

/// The transactions of `s` sent from or to `addr`, in order.
pub open spec fn txs_involving(s: Seq<Transaction>, addr: Seq<char>) -> Seq<Transaction>
    decreases s.len(),
{
    if s.len() == 0 {
        Seq::empty()
    } else {
        let r = txs_involving(s.drop_last(), addr);
        if s.last().from@ == addr || s.last().to@ == addr { r.push(s.last()) } else { r }
    }
}

/// The transactions of `chain` sent from or to `addr`, block by block.
pub open spec fn chain_txs_of(chain: Seq<Block>, addr: Seq<char>) -> Seq<Transaction>
    decreases chain.len(),
{
    if chain.len() == 0 {
        Seq::empty()
    } else {
        chain_txs_of(chain.drop_last(), addr) + txs_involving(chain.last().transactions@, addr)
    }
}

pub struct Blockchain {
    pub chain: Vec<Block>,
    pub ledger: Ledger,
    pub supply: SupplyTracker,
}

/// The genesis allocations, in the order they are credited.
pub open spec fn genesis_balances() -> Map<Seq<char>, u128> {
    let m0 = Map::<Seq<char>, u128>::empty();
    let m1 = credited(m0, DEV_WALLET@, 100_000_000_000_000);
    let m2 = credited(m1, "db1xecosystem"@, 200_000_000_000_000);
    let m3 = credited(m2, "db1xdao_treasury"@, 150_000_000_000_000);
    let m4 = credited(m3, MINING_POOL_WALLET@, 100_000_000_000_000);
    let m5 = credited(m4, "db1xinvestors"@, 50_000_000_000_000);
    credited(m5, "db1xcommunity"@, 50_000_000_000_000)
}

impl Default for Blockchain {
    fn default() -> (r: Self)
        ensures
            r.wf(),
            r.chain@.len() == 1,
            r.chain@[0].height == 0,
            r.chain@[0].timestamp == 1_700_000_000,
            r.chain@[0].previous_hash@ == zero_hash(),
            r.chain@[0].merkle_root@ == merkle_root_spec(Seq::empty()),
            r.chain@[0].transactions@.len() == 0,
            r.chain@[0].validator@ == "genesis"@,
            r.chain@[0].nonce == 0,
            r.chain@[0].difficulty == 4,
            r.chain@[0].block_reward == 0,
            r.chain@[0].total_fees == 0,
            r.chain@[0].ai_score == 100,
            r.chain@[0].dao_signature@ == "genesis_dao"@,
            r.chain@[0].block_hash@ == block_hash_spec(r.chain@[0]),
            r.ledger.balances() == genesis_balances(),
            r.ledger.nonces() == Map::<Seq<char>, u64>::empty(),
            r.supply.total_minted == 650_000_000_000_000,
            r.supply.total_burned == 0,
            r.supply.locked_supply == 0,
            !r.supply.burn_stopped,
            !r.supply.liquidity_auto_locked,
            r.supply.timelocks@.len() == 0,
    {
        let mut bc = Blockchain { chain: Vec::new(), ledger: Ledger::default(), supply: SupplyTracker::default() };
        bc.genesis();
        bc
    }
}

impl Blockchain {
    pub open spec fn wf(&self) -> bool {
        self.ledger.wf()
    }

    /// The hash the next block must link to.
    pub open spec fn expected_prev_hash(&self) -> Seq<char> {
        if self.chain@.len() == 0 { zero_hash() } else { self.chain@.last().block_hash@ }
    }

    /// Adds the genesis block and the genesis allocations to an empty chain.
    fn genesis(&mut self)
        requires
            old(self).wf(),
            old(self).chain@.len() == 0,
            old(self).ledger.balances() == Map::<Seq<char>, u128>::empty(),
        ensures
            final(self).wf(),
            final(self).chain@.len() == 1,
            final(self).chain@[0].height == 0,
            final(self).chain@[0].timestamp == 1_700_000_000,
            final(self).chain@[0].previous_hash@ == zero_hash(),
            final(self).chain@[0].merkle_root@ == merkle_root_spec(Seq::empty()),
            final(self).chain@[0].transactions@.len() == 0,
            final(self).chain@[0].validator@ == "genesis"@,
            final(self).chain@[0].nonce == 0,
            final(self).chain@[0].difficulty == 4,
            final(self).chain@[0].block_reward == 0,
            final(self).chain@[0].total_fees == 0,
            final(self).chain@[0].ai_score == 100,
            final(self).chain@[0].dao_signature@ == "genesis_dao"@,
            final(self).chain@[0].block_hash@ == block_hash_spec(final(self).chain@[0]),
            final(self).ledger.balances() == genesis_balances(),
            final(self).ledger.nonces() == old(self).ledger.nonces(),
            final(self).supply.total_minted == 650_000_000_000_000,
            final(self).supply.total_burned == old(self).supply.total_burned,
            final(self).supply.locked_supply == old(self).supply.locked_supply,
            final(self).supply.burn_stopped == old(self).supply.burn_stopped,
            final(self).supply.liquidity_auto_locked == old(self).supply.liquidity_auto_locked,
            final(self).supply.timelocks@ == old(self).supply.timelocks@,
    {
        let no_txs: Vec<Transaction> = Vec::new();
        let mut g = Block {
            height: 0,
            timestamp: 1_700_000_000,
            previous_hash: zero_hash_string(),
            block_hash: String::new(),
            merkle_root: Block::compute_merkle_root(no_txs.as_slice()),
            transactions: Vec::new(),
            validator: "genesis".to_owned(),
            nonce: 0,
            difficulty: 4,
            block_reward: 0,
            total_fees: 0,
            ai_score: 100,
            dao_signature: "genesis_dao".to_owned(),
        };
        assert(no_txs@ =~= Seq::<Transaction>::empty());
        g.block_hash = g.compute_hash();
        self.ledger.credit(DEV_WALLET, 100_000_000_000_000);
        self.ledger.credit("db1xecosystem", 200_000_000_000_000);
        self.ledger.credit("db1xdao_treasury", 150_000_000_000_000);
        self.ledger.credit(MINING_POOL_WALLET, 100_000_000_000_000);
        self.ledger.credit("db1xinvestors", 50_000_000_000_000);
        self.ledger.credit("db1xcommunity", 50_000_000_000_000);
        self.supply.total_minted = 650_000_000_000_000;
        self.chain.push(g);
    }

    pub fn latest_block(&self) -> (r: Option<&Block>)
        ensures
            self.chain@.len() == 0 ==> r is None,
            self.chain@.len() > 0 ==> r == Some(&self.chain@.last()),
    {
        let n = self.chain.len();
        if n == 0 { None } else { Some(&self.chain[n - 1]) }
    }

    pub fn height(&self) -> (h: u64)
        ensures
            h == self.chain@.len() as u64,
    {
        self.chain.len() as u64
    }

    /// Full chain validation: every block after the first has its recomputed
    /// hash, links to its predecessor, carries the Merkle root of its
    /// transactions, and every transaction in it is valid.
    pub fn is_valid(&self) -> (ok: bool)
        ensures
            ok == chain_valid_spec(self.chain@),
    {
        let n = self.chain.len();
        if n == 0 {
            return true;
        }
        let mut i: usize = 1;
        while i < n
            invariant
                n == self.chain@.len(),
                1 <= i <= n,
                forall|k: int| 1 <= k < i ==> block_links(self.chain@[k - 1], #[trigger] self.chain@[k]),
            decreases n - i,
        {
            if !block_follows(&self.chain[i - 1], &self.chain[i]) {
                assert(!block_links(self.chain@[i - 1], self.chain@[i as int]));
                return false;
            }
            i = i + 1;
        }
        true
    }

    /// Whether `block` passes the checks made before any transaction runs.
    pub open spec fn block_checks_pass(&self, block: Block) -> bool {
        &&& block.block_hash@ == block_hash_spec(block)
        &&& block.previous_hash@ == self.expected_prev_hash()
        &&& block.merkle_root@ == merkle_root_spec(block.transactions@)
    }

    /// The run of `block`'s transactions against the current ledger.
    pub open spec fn run_of(&self, block: Block) -> TxRun {
        run_txs(self.ledger.balances(), self.ledger.nonces(), block.transactions@)
    }

    /// Every sum that appending `block` computes stays within its integer
    /// type; past them the unchecked sums would overflow.
    pub open spec fn add_block_fits(&self, block: Block) -> bool {
        let run = self.run_of(block);
        let reward = reward_spec(block.height as int);
        self.block_checks_pass(block) ==> {
            &&& run.fits
            &&& (run.error is None ==> settle_fits(run.balances, block.validator@, run.fees,
                    self.supply.burn_stopped, self.supply.can_mint_spec(reward), reward))
        }
    }

    /// Appends a block after checking its hash, its link and its Merkle root,
    /// applying its transactions in order, sharing out the fees and paying the
    /// block reward. A failing transaction stops the block; the transactions
    /// before it stay applied.
    pub fn add_block(&mut self, block: Block) -> (r: Result<(), &'static str>)
        requires
            old(self).wf(),
            old(self).add_block_fits(block),
        ensures
            final(self).wf(),
            block.block_hash@ != block_hash_spec(block) ==> {
                &&& r == Err::<(), &'static str>("Invalid block hash")
                &&& final(self).unchanged_from(*old(self))
            },
            block.block_hash@ == block_hash_spec(block) && block.previous_hash@ != old(self).expected_prev_hash() ==> {
                &&& r == Err::<(), &'static str>("Previous hash mismatch")
                &&& final(self).unchanged_from(*old(self))
            },
            block.block_hash@ == block_hash_spec(block) && block.previous_hash@ == old(self).expected_prev_hash()
                && block.merkle_root@ != merkle_root_spec(block.transactions@) ==> {
                &&& r == Err::<(), &'static str>("Merkle root mismatch")
                &&& final(self).unchanged_from(*old(self))
            },
            old(self).block_checks_pass(block) && old(self).run_of(block).error is Some ==> {
                let run = old(self).run_of(block);
                &&& r == Err::<(), &'static str>(run.error->0)
                &&& final(self).ledger.balances() == run.balances
                &&& final(self).ledger.nonces() == run.nonces
                &&& final(self).chain@ == old(self).chain@
                &&& final(self).supply == old(self).supply
            },
            old(self).block_checks_pass(block) && old(self).run_of(block).error is None ==> {
                let run = old(self).run_of(block);
                let split = split_spec(run.fees, old(self).supply.burn_stopped);
                let take = old(self).supply.burn_take(split.2);
                let reward = reward_spec(block.height as int);
                let minted = old(self).supply.can_mint_spec(reward);
                &&& r is Ok
                &&& final(self).ledger.balances() == settle_balances(run.balances, block.validator@, run.fees, old(self).supply.burn_stopped, minted, reward)
                &&& final(self).ledger.nonces() == run.nonces
                &&& final(self).supply.total_burned == old(self).supply.total_burned + take
                &&& final(self).supply.burn_stopped == (old(self).supply.burn_stopped || (split.2 != 0
                    && final(self).supply.total_burned >= BURN_CAP))
                &&& final(self).supply.total_minted == old(self).supply.total_minted + if minted { reward } else { 0 }
                &&& final(self).supply.locked_supply == old(self).supply.locked_supply
                &&& final(self).supply.liquidity_auto_locked == old(self).supply.liquidity_auto_locked
                &&& final(self).supply.timelocks@ == old(self).supply.timelocks@
                &&& final(self).chain@ == old(self).chain@.push(Block {
                    total_fees: run.fees as u128,
                    block_reward: if minted { reward as u128 } else { block.block_reward },
                    ..block
                })
            },
    {
        let mut block = block;
        if !block.verify_hash() {
            return Err("Invalid block hash");
        }
        let prev_hash = match self.latest_block() {
            Some(b) => b.block_hash.clone(),
            None => zero_hash_string(),
        };
        if block.previous_hash != prev_hash {
            return Err("Previous hash mismatch");
        }
        let root = Block::compute_merkle_root(block.transactions.as_slice());
        if block.merkle_root != root {
            return Err("Merkle root mismatch");
        }
        let total_fees = match self.ledger.apply_transactions(&block.transactions) {
            Ok(f) => f,
            Err(e) => return Err(e),
        };
        block.total_fees = total_fees;
        let split = split_fee_with_state(total_fees, self.supply.burn_stopped);
        self.ledger.credit(block.validator.as_str(), split.miner);
        self.ledger.credit(DEV_WALLET, split.dev);
        self.ledger.credit(BURN_ADDRESS, split.burn);
        self.supply.burn(split.burn);
        self.ledger.credit(LIQUIDITY_LOCK_VAULT, split.liquidity);
        self.ledger.credit(MARKETING_WALLET, split.marketing);
        let reward = block_reward_at(block.height);
        if self.supply.can_mint(reward) {
            let _ = self.supply.mint(reward);
            self.ledger.credit(block.validator.as_str(), reward);
            block.block_reward = reward;
        }
        self.chain.push(block);
        Ok(())
    }

    /// Whether every sum that appending `block` computes stays within its
    /// integer type: the caller's test before `add_block`. It runs the
    /// block's transactions and the fee settlement on a copy of the ledger,
    /// with checked sums.
    #[verifier::rlimit(60)]
    pub fn block_sums_fit(&self, block: &Block) -> (r: bool)
        requires
            self.wf(),
        ensures
            r == self.add_block_fits(*block),
    {
        if !block.verify_hash() {
            return true;
        }
        let prev_hash = match self.latest_block() {
            Some(b) => b.block_hash.clone(),
            None => zero_hash_string(),
        };
        if block.previous_hash != prev_hash {
            return true;
        }
        let root = Block::compute_merkle_root(block.transactions.as_slice());
        if block.merkle_root != root {
            return true;
        }
        let ghost b0 = self.ledger.balances();
        let ghost n0 = self.ledger.nonces();
        let ghost all = block.transactions@;
        let txs = &block.transactions;
        let mut led = self.ledger.duplicate();
        let mut fees: u128 = 0;
        let m = txs.len();
        let mut i: usize = 0;
        assert(all.take(0) =~= Seq::<Transaction>::empty());
        while i < m
            invariant
                m == all.len(),
                all == txs@,
                *txs == block.transactions,
                b0 == self.ledger.balances(),
                n0 == self.ledger.nonces(),
                self.block_checks_pass(*block),
                i <= m,
                led.wf(),
                run_txs(b0, n0, all.take(i as int)).error is None,
                run_txs(b0, n0, all.take(i as int)).fits,
                led.balances() == run_txs(b0, n0, all.take(i as int)).balances,
                led.nonces() == run_txs(b0, n0, all.take(i as int)).nonces,
                fees == run_txs(b0, n0, all.take(i as int)).fees,
            decreases m - i,
        {
            let ghost prev = run_txs(b0, n0, all.take(i as int));
            assert(all.take(i + 1).drop_last() =~= all.take(i as int));
            assert(all.take(i + 1).last() == all[i as int]);
            assert(run_txs(b0, n0, all.take(i + 1)) == tx_step(prev, all[i as int]));
            let tx = &txs[i];
            if !tx.is_valid() {
                proof { lemma_run_stops(b0, n0, all, i + 1); }
                return true;
            }
            if tx.amount > u128::MAX - tx.gas_fee {
                proof { lemma_run_stops(b0, n0, all, i + 1); }
                return false;
            }
            let cost = tx.amount + tx.gas_fee;
            let expected_nonce = led.nonce(tx.from.as_str());
            if tx.nonce != expected_nonce {
                proof { lemma_run_stops(b0, n0, all, i + 1); }
                return true;
            }
            if led.balance(tx.from.as_str()) < cost {
                proof { lemma_run_stops(b0, n0, all, i + 1); }
                return true;
            }
            let _ = led.debit(tx.from.as_str(), cost);
            if led.balance(tx.to.as_str()) > u128::MAX - tx.amount || expected_nonce == u64::MAX
                || fees > u128::MAX - tx.gas_fee {
                proof { lemma_run_stops(b0, n0, all, i + 1); }
                return false;
            }
            led.credit(tx.to.as_str(), tx.amount);
            led.increment_nonce(tx.from.as_str());
            fees = fees + tx.gas_fee;
            i = i + 1;
        }
        assert(all.take(m as int) =~= all);
        let reward = block_reward_at(block.height);
        let minted = self.supply.can_mint(reward);
        if fees > u128::MAX / 55 {
            return false;
        }
        let split = split_fee_with_state(fees, self.supply.burn_stopped);
        let v = block.validator.as_str();
        if led.balance(v) > u128::MAX - split.miner {
            return false;
        }
        led.credit(v, split.miner);
        if led.balance(DEV_WALLET) > u128::MAX - split.dev {
            return false;
        }
        led.credit(DEV_WALLET, split.dev);
        if led.balance(BURN_ADDRESS) > u128::MAX - split.burn {
            return false;
        }
        led.credit(BURN_ADDRESS, split.burn);
        if led.balance(LIQUIDITY_LOCK_VAULT) > u128::MAX - split.liquidity {
            return false;
        }
        led.credit(LIQUIDITY_LOCK_VAULT, split.liquidity);
        if led.balance(MARKETING_WALLET) > u128::MAX - split.marketing {
            return false;
        }
        led.credit(MARKETING_WALLET, split.marketing);
        if minted && led.balance(v) > u128::MAX - reward {
            return false;
        }
        true
    }

    /// The first transaction on the chain, block by block and in block
    /// order, whose hash is `hash`.
    pub fn get_transaction(&self, hash: &str) -> (r: Option<&Transaction>)
        ensures
            match r {
                Some(t) => exists|b: int, k: int| {
                    &&& tx_at(self.chain@, b, k)
                    &&& self.chain@[b].transactions@[k] == *t
                    &&& t.tx_hash@ == hash@
                    &&& forall|b2: int, k2: int| tx_at(self.chain@, b2, k2) && (b2 < b || (b2 == b && k2 < k))
                        ==> (#[trigger] self.chain@[b2].transactions@[k2]).tx_hash@ != hash@
                },
                None => forall|b: int, k: int| tx_at(self.chain@, b, k)
                    ==> (#[trigger] self.chain@[b].transactions@[k]).tx_hash@ != hash@,
            },
    {
        let n = self.chain.len();
        let mut b: usize = 0;
        while b < n
            invariant
                n == self.chain@.len(),
                b <= n,
                forall|b2: int, k2: int| tx_at(self.chain@, b2, k2) && b2 < b
                    ==> (#[trigger] self.chain@[b2].transactions@[k2]).tx_hash@ != hash@,
            decreases n - b,
        {
            let txs = &self.chain[b].transactions;
            let m = txs.len();
            let mut k: usize = 0;
            while k < m
                invariant
                    n == self.chain@.len(),
                    b < n,
                    *txs == self.chain@[b as int].transactions,
                    m == txs@.len(),
                    k <= m,
                    forall|b2: int, k2: int| tx_at(self.chain@, b2, k2) && (b2 < b || (b2 == b && k2 < k))
                        ==> (#[trigger] self.chain@[b2].transactions@[k2]).tx_hash@ != hash@,
                decreases m - k,
            {
                if str_eq(txs[k].tx_hash.as_str(), hash) {
                    assert(tx_at(self.chain@, b as int, k as int));
                    return Some(&txs[k]);
                }
                k = k + 1;
            }
            b = b + 1;
        }
        None
    }

    /// Every transaction on the chain sent from or to `addr`, in chain order.
    pub fn transactions_of(&self, addr: &str) -> (r: Vec<&Transaction>)
        ensures
            r@.len() == chain_txs_of(self.chain@, addr@).len(),
            forall|i: int| 0 <= i < r@.len() ==> *r@[i] == chain_txs_of(self.chain@, addr@)[i],
    {
        let n = self.chain.len();
        let mut out: Vec<&Transaction> = Vec::new();
        let mut b: usize = 0;
        while b < n
            invariant
                n == self.chain@.len(),
                b <= n,
                out@.len() == chain_txs_of(self.chain@.take(b as int), addr@).len(),
                forall|i: int| 0 <= i < out@.len() ==> *out@[i] == chain_txs_of(self.chain@.take(b as int), addr@)[i],
            decreases n - b,
        {
            let ghost before = chain_txs_of(self.chain@.take(b as int), addr@);
            let txs = &self.chain[b].transactions;
            let m = txs.len();
            let mut k: usize = 0;
            while k < m
                invariant
                    n == self.chain@.len(),
                    b < n,
                    *txs == self.chain@[b as int].transactions,
                    m == txs@.len(),
                    k <= m,
                    before == chain_txs_of(self.chain@.take(b as int), addr@),
                    out@.len() == before.len() + txs_involving(txs@.take(k as int), addr@).len(),
                    forall|i: int| 0 <= i < out@.len() ==> *out@[i] == (before + txs_involving(txs@.take(k as int), addr@))[i],
                decreases m - k,
            {
                assert(txs@.take(k + 1).drop_last() =~= txs@.take(k as int));
                if str_eq(txs[k].from.as_str(), addr) || str_eq(txs[k].to.as_str(), addr) {
                    out.push(&txs[k]);
                }
                k = k + 1;
            }
            assert(txs@.take(m as int) =~= txs@);
            assert(self.chain@.take(b + 1).drop_last() =~= self.chain@.take(b as int));
            b = b + 1;
        }
        assert(self.chain@.take(n as int) =~= self.chain@);
        out
    }

    /// Nothing observable changed.
    pub open spec fn unchanged_from(&self, other: Blockchain) -> bool {
        &&& self.chain@ == other.chain@
        &&& self.ledger.balances() == other.ledger.balances()
        &&& self.ledger.nonces() == other.ledger.nonces()
        &&& self.supply == other.supply
    }
}

// ── Laws ─────────────────────────────────────────────────────────────────────

/// An applied transfer moves exactly its amount: the sender pays amount and
/// gas, the receiver gains the amount, no other balance changes, the
/// sender's nonce advances by one and the gas joins the collected fees.
pub proof fn law_transfer_moves_amount(r: TxRun, tx: Transaction, a: Seq<char>)
    requires
        tx_step(r, tx).error is None,
        tx_step(r, tx).fits,
        tx.from@ != tx.to@,
    ensures
        bal_of(tx_step(r, tx).balances, tx.from@) == bal_of(r.balances, tx.from@) - tx.amount - tx.gas_fee,
        bal_of(tx_step(r, tx).balances, tx.to@) == bal_of(r.balances, tx.to@) + tx.amount,
        a != tx.from@ && a != tx.to@ ==> bal_of(tx_step(r, tx).balances, a) == bal_of(r.balances, a),
        nonce_of(tx_step(r, tx).nonces, tx.from@) == nonce_of(r.nonces, tx.from@) + 1,
        tx_step(r, tx).fees == r.fees + tx.gas_fee,
{
}

/// Applying a transaction conserves value, also when it is sent to its own
/// sender: the sender ends up poorer by the gas, plus the amount when the
/// receiver is someone else; a distinct receiver gains exactly the amount;
/// no other balance changes; the gas joins the fees and the sender's nonce
/// advances by one.
pub proof fn law_transfer_conserves_value(r: TxRun, tx: Transaction, a: Seq<char>)
    requires
        tx_step(r, tx).error is None,
        tx_step(r, tx).fits,
    ensures
        bal_of(tx_step(r, tx).balances, tx.from@) == bal_of(r.balances, tx.from@) - tx.gas_fee
            - if tx.to@ == tx.from@ { 0 } else { tx.amount as int },
        tx.to@ != tx.from@ ==> bal_of(tx_step(r, tx).balances, tx.to@) == bal_of(r.balances, tx.to@) + tx.amount,
        a != tx.from@ && a != tx.to@ ==> bal_of(tx_step(r, tx).balances, a) == bal_of(r.balances, a),
        tx_step(r, tx).fees == r.fees + tx.gas_fee,
        nonce_of(tx_step(r, tx).nonces, tx.from@) == nonce_of(r.nonces, tx.from@) + 1,
{
}

/// A valid chain is linked, hashed and committed: every block after the
/// first names its predecessor's hash as its previous hash, stores its own
/// recomputed hash, carries the Merkle root of its transactions, and holds
/// only valid transactions.
pub proof fn law_valid_chain_is_linked(c: Seq<Block>, i: int)
    requires
        chain_valid_spec(c),
        1 <= i < c.len(),
    ensures
        c[i].previous_hash@ == c[i - 1].block_hash@,
        c[i].block_hash@ == block_hash_spec(c[i]),
        c[i].merkle_root@ == merkle_root_spec(c[i].transactions@),
        forall|j: int| 0 <= j < c[i].transactions@.len() ==> tx_valid_spec(#[trigger] c[i].transactions@[j]),
{
    assert(block_links(c[i - 1], c[i]));
    reveal(block_links);
}

/// The decimal rendering of a number holds no `:`.
proof fn lemma_decimal_has_no_colon(n: nat)
    ensures
        forall|i: int| 0 <= i < decimal(n).len() ==> decimal(n)[i] != ':',
    decreases n,
{
    if n >= 10 {
        lemma_decimal_has_no_colon(n / 10);
        assert forall|i: int| 0 <= i < decimal(n).len() implies decimal(n)[i] != ':' by {
            if i < decimal(n / 10).len() {
                assert(decimal(n)[i] == decimal(n / 10)[i]);
            }
        }
    }
}

/// Two texts that each start with a colon-free field followed by `:` agree
/// on that field and on what follows.
proof fn lemma_split_first_field(a: Seq<char>, x: Seq<char>, b: Seq<char>, y: Seq<char>)
    requires
        forall|i: int| 0 <= i < a.len() ==> a[i] != ':',
        forall|i: int| 0 <= i < b.len() ==> b[i] != ':',
        a + seq![':'] + x == b + seq![':'] + y,
    ensures
        a == b,
        x == y,
{
    let p = a + seq![':'] + x;
    let q = b + seq![':'] + y;
    if a.len() < b.len() {
        assert(p[a.len() as int] == ':');
        assert(q[a.len() as int] == b[a.len() as int]);
    } else if b.len() < a.len() {
        assert(q[b.len() as int] == ':');
        assert(p[b.len() as int] == a[b.len() as int]);
    }
    assert(a =~= p.subrange(0, a.len() as int));
    assert(b =~= q.subrange(0, b.len() as int));
    assert(x =~= p.subrange(a.len() as int + 1, p.len() as int));
    assert(y =~= q.subrange(b.len() as int + 1, q.len() as int));
}

/// The block payload split at its first two separators: the height, the
/// timestamp, and what follows.
proof fn lemma_payload_fields(b: Block)
    ensures
        block_payload(b) == decimal(b.height as nat) + seq![':'] + (decimal(b.timestamp as nat) + seq![':']
            + (b.previous_hash@ + ":"@ + b.merkle_root@ + ":"@ + decimal(b.nonce as nat) + ":"@ + b.validator@)),
{
    reveal_strlit(":");
    let c = ":"@;
    assert(c =~= seq![':']);
    let h = decimal(b.height as nat);
    let t = decimal(b.timestamp as nat);
    let rest = b.previous_hash@ + c + b.merkle_root@ + c + decimal(b.nonce as nat) + c + b.validator@;
    assert(block_payload(b) =~= h + c + t + c + rest);
    assert(h + c + t + c + rest =~= h + c + (t + c + rest));
}

/// A block's hash commits to its height and its timestamp: two blocks whose
/// hashed payloads are the same have the same height and the same timestamp.
pub proof fn law_payload_commits_to_height_and_time(b1: Block, b2: Block)
    requires
        block_payload(b1) == block_payload(b2),
    ensures
        b1.height == b2.height,
        b1.timestamp == b2.timestamp,
{
    let tail1 = b1.previous_hash@ + ":"@ + b1.merkle_root@ + ":"@ + decimal(b1.nonce as nat) + ":"@ + b1.validator@;
    let tail2 = b2.previous_hash@ + ":"@ + b2.merkle_root@ + ":"@ + decimal(b2.nonce as nat) + ":"@ + b2.validator@;
    let mid1 = decimal(b1.timestamp as nat) + seq![':'] + tail1;
    let mid2 = decimal(b2.timestamp as nat) + seq![':'] + tail2;
    lemma_payload_fields(b1);
    lemma_payload_fields(b2);
    lemma_decimal_has_no_colon(b1.height as nat);
    lemma_decimal_has_no_colon(b2.height as nat);
    lemma_split_first_field(decimal(b1.height as nat), mid1, decimal(b2.height as nat), mid2);
    crate::text::lemma_decimal_injective(b1.height as nat, b2.height as nat);
    lemma_decimal_has_no_colon(b1.timestamp as nat);
    lemma_decimal_has_no_colon(b2.timestamp as nat);
    lemma_split_first_field(decimal(b1.timestamp as nat), tail1, decimal(b2.timestamp as nat), tail2);
    crate::text::lemma_decimal_injective(b1.timestamp as nat, b2.timestamp as nat);
}

/// The Merkle root of one transaction is its hash, and a layer with an odd
/// number of hashes folds as if its last hash were repeated.
pub proof fn law_merkle_single_and_odd(t: Transaction, layer: Seq<Seq<char>>)
    requires
        layer.len() > 1,
        layer.len() % 2 == 1,
    ensures
        merkle_root_spec(seq![t]) == tx_hash_spec(t),
        merkle_fold(layer) == merkle_fold(layer.push(layer.last())),
{
    assert(seq![t].map_values(|tx: Transaction| tx_hash_spec(tx)) =~= seq![tx_hash_spec(t)]);
    let longer = layer.push(layer.last());
    assert(merkle_parent_layer(longer) =~= merkle_parent_layer(layer));
}

/// The whole fee of a block is paid out: where the validator and the four
/// fund wallets are distinct addresses, each gains exactly its share of the
/// schedule in force (the validator its share plus any minted reward), the
/// shares add up to the fee, and no other balance changes.
pub proof fn law_fees_fully_paid_out(b: Map<Seq<char>, u128>, validator: Seq<char>, fees: int, stopped: bool, minted: bool, reward: int, a: Seq<char>)
    requires
        fees >= 0,
        reward >= 0,
        settle_fits(b, validator, fees, stopped, minted, reward),
        validator != DEV_WALLET@,
        validator != BURN_ADDRESS@,
        validator != LIQUIDITY_LOCK_VAULT@,
        validator != MARKETING_WALLET@,
    ensures
        ({
            let split = split_spec(fees, stopped);
            let after = settle_balances(b, validator, fees, stopped, minted, reward);
            &&& split.0 + split.1 + split.2 + split.3 + split.4 == fees
            &&& bal_of(after, validator) == bal_of(b, validator) + split.0 + if minted { reward } else { 0 }
            &&& bal_of(after, DEV_WALLET@) == bal_of(b, DEV_WALLET@) + split.1
            &&& bal_of(after, BURN_ADDRESS@) == bal_of(b, BURN_ADDRESS@) + split.2
            &&& bal_of(after, LIQUIDITY_LOCK_VAULT@) == bal_of(b, LIQUIDITY_LOCK_VAULT@) + split.3
            &&& bal_of(after, MARKETING_WALLET@) == bal_of(b, MARKETING_WALLET@) + split.4
            &&& (stopped ==> split.2 == 0)
            &&& (a != validator && a != DEV_WALLET@ && a != BURN_ADDRESS@ && a != LIQUIDITY_LOCK_VAULT@
                && a != MARKETING_WALLET@ ==> bal_of(after, a) == bal_of(b, a))
        }),
{
    reveal_strlit("db1xdev_nexuzy_lab_david0154_00000000");
    reveal_strlit("db1x000000000000000000000000000burn");
    reveal_strlit("db1xliquidity_lock_vault_dao_00000000");
    reveal_strlit("db1xmarketing_fund_devilchain_000000");
    // The four fund wallets already differ in their fifth character.
    assert(DEV_WALLET@[4] == 'd' && BURN_ADDRESS@[4] == '0' && LIQUIDITY_LOCK_VAULT@[4] == 'l' && MARKETING_WALLET@[4] == 'm');
    assert(DEV_WALLET@ != BURN_ADDRESS@ && DEV_WALLET@ != LIQUIDITY_LOCK_VAULT@ && DEV_WALLET@ != MARKETING_WALLET@);
    assert(BURN_ADDRESS@ != LIQUIDITY_LOCK_VAULT@ && BURN_ADDRESS@ != MARKETING_WALLET@);
    assert(LIQUIDITY_LOCK_VAULT@ != MARKETING_WALLET@);
    crate::tokenomics::law_fee_split_conserves_fee(fees, stopped);
}

/// A transaction cannot be applied twice: once it has gone through, applying
/// it again is refused for its nonce.
pub proof fn law_no_replay(r: TxRun, tx: Transaction)
    requires
        tx_step(r, tx).error is None,
        tx_step(r, tx).fits,
    ensures
        tx_step(tx_step(r, tx), tx).error == Some::<&'static str>("Invalid nonce"),
{
}

/// Every transaction of a run that went through is valid.
pub proof fn lemma_run_all_valid(b: Map<Seq<char>, u128>, n: Map<Seq<char>, u64>, txs: Seq<Transaction>)
    requires
        run_txs(b, n, txs).error is None,
        run_txs(b, n, txs).fits,
    ensures
        forall|i: int| 0 <= i < txs.len() ==> tx_valid_spec(#[trigger] txs[i]),
    decreases txs.len(),
{
    if txs.len() > 0 {
        let prev = run_txs(b, n, txs.drop_last());
        lemma_run_all_valid(b, n, txs.drop_last());
        assert forall|i: int| 0 <= i < txs.len() implies tx_valid_spec(#[trigger] txs[i]) by {
            if i < txs.len() - 1 {
                assert(txs[i] == txs.drop_last()[i]);
            }
        }
    }
}

/// Appending a block keeps a valid chain valid: a block that passes the
/// checks and whose transactions all go through links to the chain's last
/// block, whatever fees and reward are then recorded in it.
#[verifier::spinoff_prover]
pub proof fn law_append_keeps_chain_valid(bc: Blockchain, block: Block, fees: u128, reward: u128)
    requires
        chain_valid_spec(bc.chain@),
        bc.block_checks_pass(block),
        bc.run_of(block).error is None,
        bc.run_of(block).fits,
    ensures
        chain_valid_spec(bc.chain@.push(Block { total_fees: fees, block_reward: reward, ..block })),
{
    let b2 = Block { total_fees: fees, block_reward: reward, ..block };
    let c = bc.chain@;
    let c2 = c.push(b2);
    lemma_run_all_valid(bc.ledger.balances(), bc.ledger.nonces(), block.transactions@);
    assert(block_payload(b2) == block_payload(block));
    assert forall|i: int| 1 <= i < c2.len() implies block_links(c2[i - 1], #[trigger] c2[i]) by {
        reveal(block_links);
        if i < c.len() {
            assert(c2[i] == c[i]);
            assert(c2[i - 1] == c[i - 1]);
            assert(block_links(c[i - 1], c[i]));
        } else {
            assert(c2[i - 1] == c.last());
        }
    }
}

} // verus!
