//! Block production rules: the DAO signature of a block and the candidate
//! block a miner assembles from pending transactions.

use vstd::prelude::*;
use vstd::utf8::encode_utf8;
use crate::blockchain::{Block, Transaction, block_hash_spec, block_payload, merkle_root_spec, tx_valid_spec, zero_bits};
use crate::consensus::{mined_as, nonce_works};
use crate::crypto::{encode_hex, hex_lower, sha256, sha256_spec};
use crate::text::{decimal, push_decimal};
use crate::tokenomics::{block_reward_at, reward_spec};

verus! {

/// `dao:{height}:{prev_hash}:{proposals}`.
pub open spec fn dao_payload(height: u64, prev_hash: Seq<char>, proposals: u64) -> Seq<char> {
    "dao:"@ + decimal(height as nat) + ":"@ + prev_hash + ":"@ + decimal(proposals as nat)
}

/// Hex of the first 16 bytes of SHA-256 of the DAO payload.
pub open spec fn dao_signature_spec(height: u64, prev_hash: Seq<char>, proposals: u64) -> Seq<char> {
    hex_lower(sha256_spec(encode_utf8(dao_payload(height, prev_hash, proposals))).subrange(0, 16))
}

/// The deterministic DAO signature of a block at `height` after `prev_hash`
/// with `proposals` proposals on record.
pub fn build_dao_signature(height: u64, prev_hash: &str, proposals: u64) -> (sig: String)
    ensures
        sig@ == dao_signature_spec(height, prev_hash@, proposals),
        sig@.len() == 32,
{
    let mut payload = String::new();
    payload.append("dao:");
    push_decimal(&mut payload, height as u128);
    payload.append(":");
    payload.append(prev_hash);
    payload.append(":");
    push_decimal(&mut payload, proposals as u128);
    assert(payload@ =~= dao_payload(height, prev_hash@, proposals));
    let digest = sha256(payload.as_str().as_bytes());
    let mut first: Vec<u8> = Vec::new();
    let mut i: usize = 0;
    while i < 16
        invariant
            digest@.len() == 32,
            i <= 16,
            first@ == digest@.subrange(0, i as int),
        decreases 16 - i,
    {
        first.push(digest[i]);
        i = i + 1;
        assert(first@ =~= digest@.subrange(0, i as int));
    }
    encode_hex(first.as_slice())
}

/// The valid transactions of `s`, in order.
pub open spec fn valid_only(s: Seq<Transaction>) -> Seq<Transaction>
    decreases s.len(),
{
    if s.len() == 0 {
        Seq::empty()
    } else {
        let r = valid_only(s.drop_last());
        if tx_valid_spec(s.last()) { r.push(s.last()) } else { r }
    }
}

/// Drops the transactions that are not valid, keeping the order.
pub fn valid_transactions(txs: Vec<Transaction>) -> (r: Vec<Transaction>)
    ensures
        r@ == valid_only(txs@),
{
    let ghost all = txs@;
    let mut out: Vec<Transaction> = Vec::new();
    let rest = txs;
    let n = rest.len();
    let mut i: usize = 0;
    while i < n
        invariant
            n == all.len(),
            i <= n,
            rest@ == all,
            out@ == valid_only(all.take(i as int)),
        decreases n - i,
    {
        assert(all.take(i + 1).drop_last() =~= all.take(i as int));
        if rest[i].is_valid() {
            out.push(rest[i].copy());
        }
        i = i + 1;
    }
    assert(all.take(n as int) =~= all);
    out
}

/// The block a miner proposes: the valid pending transactions with their
/// Merkle root, the reward due at `height`, nonce 0 and no hash yet.
pub fn candidate_block(
    height: u64,
    timestamp: u64,
    previous_hash: String,
    difficulty: u32,
    txs: Vec<Transaction>,
    validator: String,
    ai_score: u32,
    dao_signature: String,
) -> (b: Block)
    ensures
        b.height == height,
        b.timestamp == timestamp,
        b.previous_hash == previous_hash,
        b.block_hash@.len() == 0,
        b.transactions@ == valid_only(txs@),
        b.merkle_root@ == merkle_root_spec(valid_only(txs@)),
        b.validator == validator,
        b.nonce == 0,
        b.difficulty == difficulty,
        b.block_reward == reward_spec(height as int),
        b.total_fees == 0,
        b.ai_score == ai_score,
        b.dao_signature == dao_signature,
{
    let verified = valid_transactions(txs);
    let merkle = Block::compute_merkle_root(verified.as_slice());
    let reward = block_reward_at(height);
    Block {
        height,
        timestamp,
        previous_hash,
        block_hash: String::new(),
        merkle_root: merkle,
        transactions: verified,
        validator,
        nonce: 0,
        difficulty,
        block_reward: reward,
        total_fees: 0,
        ai_score,
        dao_signature,
    }
}

// ── Laws ─────────────────────────────────────────────────────────────────────

/// The valid transactions of `s` are valid and no more than `s` holds.
proof fn lemma_valid_only(s: Seq<Transaction>)
    ensures
        valid_only(s).len() <= s.len(),
        forall|i: int| 0 <= i < valid_only(s).len() ==> tx_valid_spec(#[trigger] valid_only(s)[i]),
    decreases s.len(),
{
    if s.len() > 0 {
        lemma_valid_only(s.drop_last());
        let r = valid_only(s.drop_last());
        assert forall|i: int| 0 <= i < valid_only(s).len() implies tx_valid_spec(#[trigger] valid_only(s)[i]) by {
            if i < r.len() {
                assert(valid_only(s)[i] == r[i]);
            }
        }
    }
}

/// What a mining round appends: the candidate built from the pending
/// transactions at the chain's height after its tip, mined with a nonce that
/// gives `bits` leading zero bits, then appended with its fees and reward
/// filled in. That block carries the miner as validator, the next height,
/// the tip's hash as previous hash, only valid transactions and no more than
/// were pending, its own hash, and a hash with the required zero bits.
pub proof fn law_mined_round_appends(
    chain: Seq<Block>,
    pending: Seq<Transaction>,
    candidate: Block,
    mined: Block,
    n: u64,
    bits: int,
    fees: u128,
    reward: u128,
    miner: Seq<char>,
)
    requires
        candidate.height == chain.len(),
        chain.len() > 0 ==> candidate.previous_hash@ == chain.last().block_hash@,
        candidate.transactions@ == valid_only(pending),
        candidate.validator@ == miner,
        mined_as(mined, candidate, n),
        nonce_works(candidate, n, bits),
    ensures
        ({
            let appended = Block { total_fees: fees, block_reward: reward, ..mined };
            &&& appended.validator@ == miner
            &&& appended.height == chain.len()
            &&& (chain.len() > 0 ==> appended.previous_hash@ == chain.last().block_hash@)
            &&& appended.transactions@.len() <= pending.len()
            &&& forall|i: int| 0 <= i < appended.transactions@.len() ==> tx_valid_spec(#[trigger] appended.transactions@[i])
            &&& appended.block_hash@ == block_hash_spec(appended)
            &&& zero_bits(appended.block_hash@, bits)
        }),
{
    let appended = Block { total_fees: fees, block_reward: reward, ..mined };
    lemma_valid_only(pending);
    assert(block_payload(appended) == block_payload(Block { nonce: n, ..candidate }));
}

} // verus!
