//! DHP consensus: staked validators with reputation, stake-weighted selection
//! seeded by the previous block hash, block acceptance, proof-of-work nonce
//! search and difficulty adjustment.

use vstd::prelude::*;
use vstd::utf8::encode_utf8;
use crate::blockchain::{Block, block_hash_spec, block_payload, merkle_root_spec, zero_bits, has_zero_bits};
use crate::crypto::{sha256, sha256_spec};
use crate::strmap::{StrMap, lookup, has_key, map_of, lemma_lookup_at};
use crate::tokenomics::MINING_POOL_WALLET;

verus! {

// ── Validator ────────────────────────────────────────────────────────────────

#[derive(Debug, Clone)]
pub struct Validator {
    pub address: String,
    pub stake: u128,
    pub reputation: u32,
    pub blocks_produced: u64,
    pub active: bool,
}

/// Stake times reputation, capped at `u128::MAX`.
pub open spec fn power_of(v: Validator) -> int {
    let p = v.stake * v.reputation;
    if p <= u128::MAX { p } else { u128::MAX as int }
}

impl Validator {
    pub fn copy(&self) -> (r: Self)
        ensures
            r == *self,
    {
        Validator {
            address: self.address.clone(),
            stake: self.stake,
            reputation: self.reputation,
            blocks_produced: self.blocks_produced,
            active: self.active,
        }
    }

    /// Pure integer voting power.
    pub fn voting_power(&self) -> (p: u128)
        ensures
            p == power_of(*self),
    {
        match self.stake.checked_mul(self.reputation as u128) {
            Some(p) => p,
            None => u128::MAX,
        }
    }
}

// ── Validator registry ───────────────────────────────────────────────────────

pub const MIN_STAKE: u128 = 100_000_000;

/// Active and staked at least `MIN_STAKE`.
pub open spec fn eligible(v: Validator) -> bool {
    v.active && v.stake >= MIN_STAKE
}

/// The eligible validators of `s`, in entry order.
pub open spec fn eligible_seq(s: Seq<(Seq<char>, Validator)>) -> Seq<Validator>
    decreases s.len(),
{
    if s.len() == 0 {
        Seq::empty()
    } else {
        let r = eligible_seq(s.drop_last());
        if eligible(s.last().1) { r.push(s.last().1) } else { r }
    }
}

/// The voting powers of `vs` summed with saturation at `u128::MAX`.
pub open spec fn total_power(vs: Seq<Validator>) -> int
    decreases vs.len(),
{
    if vs.len() == 0 {
        0
    } else {
        let t = total_power(vs.drop_last()) + power_of(vs.last());
        if t <= u128::MAX { t } else { u128::MAX as int }
    }
}

/// The position that `pick` lands on when each validator covers a stretch of
/// its voting power, in order.
pub open spec fn weighted_pick(vs: Seq<Validator>, pick: int) -> Option<int>
    decreases vs.len(),
{
    if vs.len() == 0 {
        None
    } else if pick < power_of(vs[0]) {
        Some(0)
    } else {
        match weighted_pick(vs.drop_first(), pick - power_of(vs[0])) {
            Some(i) => Some(i + 1),
            None => None,
        }
    }
}

/// Big-endian value of a byte string.
pub open spec fn be_value(bytes: Seq<u8>) -> int
    decreases bytes.len(),
{
    if bytes.len() == 0 { 0 } else { be_value(bytes.drop_last()) * 256 + bytes.last() }
}

/// The selection seed: the first 16 bytes of SHA-256 of the entropy text,
/// read big-endian.
pub open spec fn seed_of(entropy: Seq<char>) -> int {
    be_value(sha256_spec(encode_utf8(entropy)).subrange(0, 16))
}

/// The validator selection: `None` with no eligible validator or no voting
/// power; else the one the seed (reduced modulo the total power) lands on.
pub open spec fn selection(s: Seq<(Seq<char>, Validator)>, entropy: Seq<char>) -> Option<Seq<char>> {
    let el = eligible_seq(s);
    let total = total_power(el);
    if el.len() == 0 || total == 0 {
        None
    } else {
        match weighted_pick(el, seed_of(entropy) % total) {
            Some(i) => Some(el[i].address@),
            None => Some(el.last().address@),
        }
    }
}

proof fn lemma_be_value_bound(bytes: Seq<u8>)
    ensures
        0 <= be_value(bytes) < pow256(bytes.len()),
    decreases bytes.len(),
{
    if bytes.len() > 0 {
        lemma_be_value_bound(bytes.drop_last());
        assert(pow256(bytes.len()) == pow256((bytes.len() - 1) as nat) * 256);
        let v = be_value(bytes.drop_last());
        let p = pow256((bytes.len() - 1) as nat);
        assert(v * 256 + bytes.last() < p * 256) by (nonlinear_arith)
            requires 0 <= v < p, 0 <= bytes.last() < 256;
    }
}

/// 256 to the power `n`.
pub open spec fn pow256(n: nat) -> int
    decreases n,
{
    if n == 0 { 1 } else { pow256((n - 1) as nat) * 256 }
}

proof fn lemma_pow256_16()
    ensures
        pow256(16) == 0x1_0000_0000_0000_0000_0000_0000_0000_0000int,
{
    reveal_with_fuel(pow256, 17);
}

/// Reads 16 bytes as a big-endian integer.
fn read_be_u128(bytes: &[u8]) -> (v: u128)
    requires
        bytes@.len() >= 16,
    ensures
        v == be_value(bytes@.subrange(0, 16)),
{
    let mut acc: u128 = 0;
    let mut i: usize = 0;
    while i < 16
        invariant
            bytes@.len() >= 16,
            i <= 16,
            acc == be_value(bytes@.subrange(0, i as int)),
        decreases 16 - i,
    {
        let ghost prefix = bytes@.subrange(0, i as int);
        proof {
            lemma_be_value_bound(prefix);
            assert(pow256(i as nat) <= pow256(15)) by {
                lemma_pow256_mono(i as nat, 15);
            }
            lemma_pow256_16();
            assert(pow256(15) * 256 == pow256(16));
            assert(acc * 256 + 255 <= u128::MAX) by (nonlinear_arith)
                requires acc < pow256(15), pow256(15) * 256 == 0x1_0000_0000_0000_0000_0000_0000_0000_0000int;
        }
        acc = acc * 256 + bytes[i] as u128;
        i = i + 1;
        assert(bytes@.subrange(0, i as int).drop_last() =~= prefix);
    }
    acc
}

proof fn lemma_pow256_mono(a: nat, b: nat)
    requires
        a <= b,
    ensures
        pow256(a) <= pow256(b),
        pow256(a) >= 1,
    decreases b,
{
    if b > 0 && a < b {
        lemma_pow256_mono(a, (b - 1) as nat);
    } else if a == b && b > 0 {
        lemma_pow256_mono(0, (b - 1) as nat);
    }
}

/// Every entry's key is its validator's address.
pub open spec fn keyed_by_address(s: Seq<(Seq<char>, Validator)>) -> bool {
    forall|i: int| 0 <= i < s.len() ==> (#[trigger] s[i]).0 == s[i].1.address@
}

#[derive(Debug)]
pub struct ValidatorRegistry {
    validators: StrMap<Validator>,
}

impl Default for ValidatorRegistry {
    fn default() -> (r: Self)
        ensures
            r.wf(),
            r.entries().len() == 1,
            r.entries()[0].0 == MINING_POOL_WALLET@,
            r.entries()[0].1.address@ == MINING_POOL_WALLET@,
            r.entries()[0].1.stake == 500_000_000,
            r.entries()[0].1.reputation == 80,
            r.entries()[0].1.blocks_produced == 0,
            r.entries()[0].1.active,
    {
        let mut r = ValidatorRegistry { validators: StrMap::new() };
        let _ = r.register(Validator {
            address: MINING_POOL_WALLET.to_owned(),
            stake: 500_000_000,
            reputation: 80,
            blocks_produced: 0,
            active: true,
        });
        r
    }
}

impl ValidatorRegistry {
    /// Validators by address, in registration order.
    pub closed spec fn entries(&self) -> Seq<(Seq<char>, Validator)> {
        self.validators@
    }

    /// Keys are distinct and each validator is filed under its own address.
    pub closed spec fn wf(&self) -> bool {
        &&& self.validators.wf()
        &&& keyed_by_address(self.validators@)
    }

    /// One record per address, filed under that address.
    pub proof fn law_one_record_per_address(&self)
        requires
            self.wf(),
        ensures
            crate::strmap::keys_distinct(self.entries()),
            keyed_by_address(self.entries()),
    {
    }

    /// Registers `v` under its address, replacing any validator there, when
    /// it stakes at least `MIN_STAKE`.
    pub fn register(&mut self, v: Validator) -> (r: Result<(), &'static str>)
        requires
            old(self).wf(),
        ensures
            final(self).wf(),
            v.stake < MIN_STAKE ==> r == Err::<(), &'static str>("Insufficient stake") && final(self).entries() == old(self).entries(),
            v.stake >= MIN_STAKE ==> {
                &&& r is Ok
                &&& map_of(final(self).entries()) == map_of(old(self).entries()).insert(v.address@, v)
                &&& has_key(old(self).entries(), v.address@) ==> exists|i: int| crate::strmap::key_at(old(self).entries(), v.address@, i)
                    && final(self).entries() == old(self).entries().update(i, (v.address@, v))
                &&& !has_key(old(self).entries(), v.address@) ==> final(self).entries() == old(self).entries().push((v.address@, v))
            },
    {
        if v.stake < MIN_STAKE {
            return Err("Insufficient stake");
        }
        let ghost before = self.validators@;
        let key = v.address.clone();
        self.validators.insert(key, v);
        assert forall|i: int| 0 <= i < self.validators@.len()
            implies (#[trigger] self.validators@[i]).0 == self.validators@[i].1.address@ by {
            if i < before.len() && self.validators@[i] != before[i] {
                assert(self.validators@[i] == (v.address@, v));
            }
        }
        Ok(())
    }

    pub fn is_eligible(&self, addr: &str) -> (r: bool)
        requires
            self.wf(),
        ensures
            r == match lookup(self.entries(), addr@) {
                Some(v) => eligible(v),
                None => false,
            },
    {
        match self.validators.get(addr) {
            Some(v) => v.active && v.stake >= MIN_STAKE,
            None => false,
        }
    }

    /// Stake-weighted choice among the eligible validators, seeded by SHA-256
    /// of `entropy`.
    pub fn select_validator(&self, entropy: &str) -> (r: Option<String>)
        ensures
            match r {
                Some(a) => selection(self.entries(), entropy@) == Some(a@),
                None => selection(self.entries(), entropy@) is None,
            },
            self.wf() ==> (r matches Some(a) ==> (lookup(self.entries(), a@) matches Some(v) && eligible(v))),
    {
        let ghost s = self.validators@;
        let n = self.validators.len();
        let mut el: Vec<&Validator> = Vec::new();
        let mut i: usize = 0;
        while i < n
            invariant
                n == s.len(),
                s == self.validators@,
                i <= n,
                el@.len() == eligible_seq(s.take(i as int)).len(),
                forall|k: int| 0 <= k < el@.len() ==> *el@[k] == eligible_seq(s.take(i as int))[k],
            decreases n - i,
        {
            assert(s.take(i + 1).drop_last() =~= s.take(i as int));
            let v = self.validators.value_at(i);
            if v.active && v.stake >= MIN_STAKE {
                el.push(v);
            }
            i = i + 1;
        }
        assert(s.take(n as int) =~= s);
        let ghost els = eligible_seq(s);
        if el.len() == 0 {
            return None;
        }
        let m = el.len();
        let mut total: u128 = 0;
        let mut j: usize = 0;
        while j < m
            invariant
                m == els.len(),
                m == el@.len(),
                forall|k: int| 0 <= k < m ==> *el@[k] == els[k],
                j <= m,
                total == total_power(els.take(j as int)),
            decreases m - j,
        {
            assert(els.take(j + 1).drop_last() =~= els.take(j as int));
            total = total.saturating_add(el[j].voting_power());
            j = j + 1;
        }
        assert(els.take(m as int) =~= els);
        if total == 0 {
            return None;
        }
        let seed = sha256(entropy.as_bytes());
        let pick_seed = read_be_u128(seed.as_slice());
        let mut pick = pick_seed % total;
        let ghost start = pick as int;
        assert(start == seed_of(entropy@) % total_power(els));
        let mut k: usize = 0;
        while k < m
            invariant
                m == els.len(),
                m == el@.len(),
                forall|t: int| 0 <= t < m ==> *el@[t] == els[t],
                k <= m,
                els == eligible_seq(self.entries()),
                s == self.validators@,
                total == total_power(els),
                total > 0,
                start == seed_of(entropy@) % total_power(els),
                weighted_pick(els, start) == match weighted_pick(els.subrange(k as int, m as int), pick as int) {
                    Some(x) => Some(x + k),
                    None => None,
                },
            decreases m - k,
        {
            let ghost rest = els.subrange(k as int, m as int);
            assert(rest[0] == els[k as int]);
            assert(rest.drop_first() =~= els.subrange(k + 1, m as int));
            let vp = el[k].voting_power();
            if pick < vp {
                assert(weighted_pick(els, start) == Some(k as int));
                proof {
                    if self.wf() {
                        lemma_selected_on_record(s, entropy@);
                    }
                }
                return Some(el[k].address.clone());
            }
            pick = pick - vp;
            k = k + 1;
        }
        assert(els.subrange(m as int, m as int).len() == 0);
        proof {
            if self.wf() {
                lemma_selected_on_record(s, entropy@);
            }
        }
        Some(el[m - 1].address.clone())
    }

    /// Counts a produced block for `addr` and raises its reputation by one,
    /// up to 100.
    pub fn reward_validator(&mut self, addr: &str)
        requires
            old(self).wf(),
            lookup(old(self).entries(), addr@) matches Some(v) ==> v.blocks_produced < u64::MAX && v.reputation < u32::MAX,
        ensures
            final(self).wf(),
            lookup(old(self).entries(), addr@) is None ==> final(self).entries() == old(self).entries(),
            lookup(old(self).entries(), addr@) matches Some(v) ==> {
                let v2 = Validator {
                    blocks_produced: (v.blocks_produced + 1) as u64,
                    reputation: if v.reputation + 1 <= 100 { (v.reputation + 1) as u32 } else { 100 },
                    ..v
                };
                exists|i: int| crate::strmap::key_at(old(self).entries(), addr@, i)
                    && final(self).entries() == old(self).entries().update(i, (addr@, v2))
            },
    {
        let ghost s = self.validators@;
        match self.validators.find(addr) {
            None => {},
            Some(i) => {
                proof { lemma_lookup_at(s, i as int); }
                let mut v = self.validators.value_at(i).copy();
                v.blocks_produced = v.blocks_produced + 1;
                let rep = v.reputation + 1;
                v.reputation = if rep <= 100 { rep } else { 100 };
                self.validators.set_value_at(i, v);
                assert(crate::strmap::key_at(s, addr@, i as int));
                assert forall|k: int| 0 <= k < self.validators@.len()
                    implies (#[trigger] self.validators@[k]).0 == self.validators@[k].1.address@ by {
                    if k != i {
                        assert(self.validators@[k] == s[k]);
                    }
                }
            },
        }
    }

    /// All validators, in registration order.
    pub fn get_all(&self) -> (r: Vec<&Validator>)
        ensures
            r@.len() == self.entries().len(),
            forall|i: int| 0 <= i < r@.len() ==> *r@[i] == self.entries()[i].1,
    {
        self.validators.values()
    }

    pub fn get(&self, addr: &str) -> (r: Option<&Validator>)
        requires
            self.wf(),
        ensures
            match r {
                Some(v) => lookup(self.entries(), addr@) == Some(*v),
                None => lookup(self.entries(), addr@) is None,
            },
    {
        self.validators.get(addr)
    }
}

// ── DHP consensus ────────────────────────────────────────────────────────────

pub struct DHPConsensus {
    pub difficulty: u32,
    pub target_block_time: u64,
    pub validators: ValidatorRegistry,
}

impl Default for DHPConsensus {
    fn default() -> (r: Self)
        ensures
            r.difficulty == 4,
            r.target_block_time == 3,
            r.validators.wf(),
            r.validators.entries().len() == 1,
            r.validators.entries()[0].0 == MINING_POOL_WALLET@,
    {
        DHPConsensus { difficulty: 4, target_block_time: 3, validators: ValidatorRegistry::default() }
    }
}

/// A block the consensus accepts after `prev_hash`: correct hash, link,
/// proof of work, Merkle root, an AI score of at least 50 and a DAO
/// signature.
pub open spec fn block_acceptable(block: Block, prev_hash: Seq<char>) -> bool {
    &&& block.block_hash@ == block_hash_spec(block)
    &&& block.previous_hash@ == prev_hash
    &&& zero_bits(block.block_hash@, block.difficulty as int)
    &&& block.merkle_root@ == merkle_root_spec(block.transactions@)
    &&& block.ai_score >= 50
    &&& block.dao_signature@.len() > 0
}

/// Every block the consensus accepts has done its proof of work and is
/// sound: its stored hash is its own, it links to the given previous hash,
/// that hash begins with `difficulty` zero bits, its Merkle root is that of
/// its transactions, its AI score is at least 50 and it carries a DAO
/// signature.
pub proof fn law_accepted_block_did_its_work(block: Block, prev_hash: Seq<char>)
    requires
        block_acceptable(block, prev_hash),
    ensures
        zero_bits(block.block_hash@, block.difficulty as int),
        block.block_hash@ == block_hash_spec(block),
        block.previous_hash@ == prev_hash,
        block.merkle_root@ == merkle_root_spec(block.transactions@),
        block.ai_score >= 50,
        block.dao_signature@.len() > 0,
{
}

/// `b` is `block` with nonce `n` and the hash for that nonce stored.
pub open spec fn mined_as(b: Block, block: Block, n: u64) -> bool {
    &&& b == (Block { nonce: n, block_hash: b.block_hash, ..block })
    &&& b.block_hash@ == block_hash_spec(Block { nonce: n, ..block })
}

/// The nonce `k` steps after `start`, wrapping at `u64::MAX`.
pub open spec fn nonce_after(start: u64, k: int) -> u64 {
    ((start + k) % 0x1_0000_0000_0000_0000int) as u64
}

/// Nonce `n` gives `block` a hash with `bits` leading zero bits.
pub open spec fn nonce_works(block: Block, n: u64, bits: int) -> bool {
    zero_bits(block_hash_spec(Block { nonce: n, ..block }), bits)
}

impl DHPConsensus {
    pub fn validate_block(&self, block: &Block, prev_hash: &str) -> (ok: bool)
        ensures
            ok == block_acceptable(*block, prev_hash@),
    {
        if !block.verify_hash() {
            return false;
        }
        let prev = prev_hash.to_owned();
        if block.previous_hash != prev {
            return false;
        }
        if !block.meets_difficulty() {
            return false;
        }
        let root = Block::compute_merkle_root(block.transactions.as_slice());
        if block.merkle_root != root {
            return false;
        }
        if block.ai_score < 50 {
            return false;
        }
        block.dao_signature.as_str().unicode_len() > 0
    }

    /// Proof-of-work search: tries nonces from the block's own, upward and
    /// wrapping, until the hash has `difficulty` leading zero bits.
    /// Returns the block with the first such nonce and its hash, or `None`
    /// when no nonce at all works.
    pub fn mine_block(&self, candidate: Block) -> (r: Option<Block>)
        ensures
            match r {
                Some(b) => exists|d: int| #![trigger nonce_after(candidate.nonce, d)] 0 <= d < 0x1_0000_0000_0000_0000int && {
                    &&& mined_as(b, candidate, nonce_after(candidate.nonce, d))
                    &&& nonce_works(candidate, b.nonce, self.difficulty as int)
                    &&& forall|k: int| 0 <= k < d ==> !nonce_works(candidate, #[trigger] nonce_after(candidate.nonce, k), self.difficulty as int)
                },
                None => forall|n: u64| !#[trigger] nonce_works(candidate, n, self.difficulty as int),
            },
    {
        let zeros = self.difficulty;
        let ghost start = candidate.nonce;
        let ghost orig = candidate;
        let mut block = candidate;
        let mut tries: u128 = 0;
        while tries < 0x1_0000_0000_0000_0000u128
            invariant
                zeros == self.difficulty,
                block == (Block { nonce: block.nonce, block_hash: block.block_hash, ..orig }),
                block.nonce == nonce_after(start, tries as int),
                start == orig.nonce,
                orig == candidate,
                forall|k: int| 0 <= k < tries ==> !nonce_works(orig, #[trigger] nonce_after(start, k), zeros as int),
            decreases 0x1_0000_0000_0000_0000u128 - tries,
        {
            let ghost cand = Block { nonce: block.nonce, ..orig };
            assert(block_payload(block) == block_payload(cand));
            block.block_hash = block.compute_hash();
            assert(block.block_hash@ == block_hash_spec(cand));
            if has_zero_bits(block.block_hash.as_str(), zeros) {
                let ghost d = tries as int;
                assert(mined_as(block, orig, nonce_after(start, d)));
                assert(nonce_works(orig, block.nonce, zeros as int));
                assert(0 <= d < 0x1_0000_0000_0000_0000int && {
                    &&& mined_as(block, orig, nonce_after(orig.nonce, d))
                    &&& nonce_works(orig, block.nonce, self.difficulty as int)
                    &&& forall|k: int| 0 <= k < d ==> !nonce_works(orig, #[trigger] nonce_after(orig.nonce, k), self.difficulty as int)
                });
                return Some(block);
            }
            assert(!nonce_works(orig, nonce_after(start, tries as int), zeros as int));
            block.nonce = block.nonce.wrapping_add(1);
            assert(block.nonce == nonce_after(start, tries + 1));
            tries = tries + 1;
        }
        assert forall|n: u64| !#[trigger] nonce_works(orig, n, zeros as int) by {
            let k: int = if n >= start { n - start } else { n + 0x1_0000_0000_0000_0000int - start };
            assert(nonce_after(start, k) == n);
        }
        None
    }

    /// Raises difficulty (to at most 32) when blocks come faster than a second
    /// under target, lowers it (to at least 2) when they come slower than a
    /// second over target.
    pub fn adjust_difficulty(&mut self, avg_block_time: u64)
        requires
            avg_block_time < crate::tokenomics::sat_sub(old(self).target_block_time as int, 1) ==> old(self).difficulty < u32::MAX,
            avg_block_time >= crate::tokenomics::sat_sub(old(self).target_block_time as int, 1) ==> old(self).target_block_time < u64::MAX,
        ensures
            final(self).target_block_time == old(self).target_block_time,
            final(self).validators == old(self).validators,
            final(self).difficulty == if avg_block_time < crate::tokenomics::sat_sub(old(self).target_block_time as int, 1) {
                if old(self).difficulty + 1 <= 32 { (old(self).difficulty + 1) as u32 } else { 32 }
            } else if avg_block_time > old(self).target_block_time + 1 {
                let d = crate::tokenomics::sat_sub(old(self).difficulty as int, 1);
                if d >= 2 { d as u32 } else { 2 }
            } else {
                old(self).difficulty
            },
    {
        let t = self.target_block_time;
        if avg_block_time < t.saturating_sub(1) {
            let d = self.difficulty + 1;
            self.difficulty = if d <= 32 { d } else { 32 };
        } else if avg_block_time > t + 1 {
            let d = self.difficulty.saturating_sub(1);
            self.difficulty = if d >= 2 { d } else { 2 };
        }
    }
}

// ── Laws ─────────────────────────────────────────────────────────────────────

proof fn lemma_eligible_seq_members(s: Seq<(Seq<char>, Validator)>)
    ensures
        forall|i: int| 0 <= i < eligible_seq(s).len() ==> eligible(#[trigger] eligible_seq(s)[i])
            && exists|j: int| 0 <= j < s.len() && s[j].1 == eligible_seq(s)[i],
    decreases s.len(),
{
    if s.len() > 0 {
        lemma_eligible_seq_members(s.drop_last());
        let r = eligible_seq(s.drop_last());
        assert forall|i: int| 0 <= i < eligible_seq(s).len() implies eligible(#[trigger] eligible_seq(s)[i])
            && exists|j: int| 0 <= j < s.len() && s[j].1 == eligible_seq(s)[i] by {
            if i < r.len() {
                assert(eligible_seq(s)[i] == r[i]);
                let j = choose|j: int| 0 <= j < s.drop_last().len() && s.drop_last()[j].1 == r[i];
                assert(s[j] == s.drop_last()[j]);
            } else {
                assert(s[s.len() - 1].1 == eligible_seq(s)[i]);
            }
        }
    }
}

proof fn lemma_weighted_pick_in_range(vs: Seq<Validator>, pick: int)
    ensures
        weighted_pick(vs, pick) matches Some(i) ==> 0 <= i < vs.len(),
    decreases vs.len(),
{
    if vs.len() > 0 && pick >= power_of(vs[0]) {
        lemma_weighted_pick_in_range(vs.drop_first(), pick - power_of(vs[0]));
    }
}

/// In a registry filed by address, the selected address looks up an
/// eligible validator.
proof fn lemma_selected_on_record(s: Seq<(Seq<char>, Validator)>, entropy: Seq<char>)
    requires
        crate::strmap::keys_distinct(s),
        keyed_by_address(s),
        selection(s, entropy) is Some,
    ensures
        lookup(s, selection(s, entropy)->0) matches Some(v) && eligible(v),
{
    law_selected_is_eligible(s, entropy);
    let j = choose|j: int| 0 <= j < s.len() && eligible(s[j].1) && s[j].1.address@ == selection(s, entropy)->0;
    assert(s[j].0 == s[j].1.address@);
    lemma_lookup_at(s, j);
}

/// Only an eligible validator (active, with at least the minimum stake) of
/// the registry is ever selected.
pub proof fn law_selected_is_eligible(s: Seq<(Seq<char>, Validator)>, entropy: Seq<char>)
    requires
        selection(s, entropy) is Some,
    ensures
        exists|j: int| 0 <= j < s.len() && eligible(s[j].1) && s[j].1.address@ == selection(s, entropy)->0,
{
    let el = eligible_seq(s);
    lemma_eligible_seq_members(s);
    let total = total_power(el);
    lemma_weighted_pick_in_range(el, seed_of(entropy) % total);
    let i = match weighted_pick(el, seed_of(entropy) % total) {
        Some(i) => i,
        None => el.len() - 1,
    };
    assert(eligible(el[i]));
    let j = choose|j: int| 0 <= j < s.len() && s[j].1 == el[i];
    assert(s[j].1.address@ == selection(s, entropy)->0);
}

/// A mined block carries its own hash, and that hash has the required
/// leading zero bits.
pub proof fn law_mined_block_verifies(b: Block, block: Block, n: u64, zeros: int)
    requires
        mined_as(b, block, n),
        nonce_works(block, n, zeros),
    ensures
        b.block_hash@ == block_hash_spec(b),
        zero_bits(b.block_hash@, zeros),
{
    assert(block_payload(b) == block_payload(Block { nonce: n, ..block }));
}

/// Difficulty kept between 2 and 32 stays there.
pub proof fn law_difficulty_bounds(d: u32, target: u64, avg: u64)
    requires
        2 <= d <= 32,
    ensures
        ({
            let nd = if avg < crate::tokenomics::sat_sub(target as int, 1) {
                if d + 1 <= 32 { d + 1 } else { 32 }
            } else if avg > target + 1 {
                let x = crate::tokenomics::sat_sub(d as int, 1);
                if x >= 2 { x } else { 2 }
            } else {
                d as int
            };
            2 <= nd <= 32
        }),
{
}

} // verus!
