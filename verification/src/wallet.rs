//! Wallets: address derivation (`db1x` + 32 hex digits) and the address
//! format check.

use vstd::prelude::*;
use vstd::utf8::encode_utf8;
use crate::crypto::{encode_hex, hex_lower, random_bytes_32, sha256, sha256_spec};
use crate::text::{has_prefix, starts_with};

verus! {

pub struct Wallet {
    pub address: String,
    pub public_key: String,
}

/// The wallet drawn from `seed`: the key is hex SHA-256 of the seed, the
/// address `db1x` and the hex of the digest's first 16 bytes.
pub open spec fn wallet_of(seed: Seq<u8>) -> (Seq<char>, Seq<char>) {
    let h = sha256_spec(seed);
    ("db1x"@ + hex_lower(h.subrange(0, 16)), hex_lower(h))
}

/// `db1x` prefix and at least 20 bytes.
pub open spec fn valid_address(addr: Seq<char>) -> bool {
    has_prefix(addr, "db1x"@) && encode_utf8(addr).len() >= 20
}

impl Wallet {
    /// The wallet derived from the random bytes `seed`.
    pub fn from_seed(seed: &[u8]) -> (w: Wallet)
        ensures
            (w.address@, w.public_key@) == wallet_of(seed@),
            w.address@.len() == 36,
            valid_address(w.address@),
            w.public_key@.len() == 64,
    {
        let hash = sha256(seed);
        let mut first: Vec<u8> = Vec::new();
        let mut i: usize = 0;
        while i < 16
            invariant
                hash@.len() == 32,
                i <= 16,
                first@ == hash@.subrange(0, i as int),
            decreases 16 - i,
        {
            first.push(hash[i]);
            i = i + 1;
            assert(first@ =~= hash@.subrange(0, i as int));
        }
        let mut address = String::new();
        address.append("db1x");
        let tail = encode_hex(first.as_slice());
        address.append(tail.as_str());
        let public_key = encode_hex(hash.as_slice());
        proof { law_derived_address_valid(seed@); }
        Wallet { address, public_key }
    }

    /// A fresh wallet from 32 random bytes.
    pub fn generate() -> (w: Wallet)
        ensures
            exists|seed: Seq<u8>| seed.len() == 32 && (w.address@, w.public_key@) == wallet_of(seed),
            w.address@.len() == 36,
            valid_address(w.address@),
            w.public_key@.len() == 64,
    {
        let seed = random_bytes_32();
        Self::from_seed(seed.as_slice())
    }

    pub fn is_valid_address(addr: &str) -> (r: bool)
        ensures
            r == valid_address(addr@),
    {
        starts_with(addr, "db1x") && addr.as_bytes().len() >= 20
    }
}

// ── Laws ─────────────────────────────────────────────────────────────────────

/// Every derived wallet address is a valid address (the digest being the 32
/// bytes that `sha2` returns).
pub proof fn law_derived_address_valid(seed: Seq<u8>)
    requires
        sha256_spec(seed).len() == 32,
    ensures
        valid_address(wallet_of(seed).0),
        wallet_of(seed).0.len() == 36,
{
    let a = wallet_of(seed).0;
    vstd::arithmetic::power2::lemma2_to64();
    assert(sha256_spec(seed).subrange(0, 16).len() == 16);
    reveal_strlit("db1x");
    assert(a.subrange(0, 4) =~= "db1x"@);
    crate::text::lemma_utf8_len_at_least(a);
}

/// A valid address is never flagged as a spam address.
pub proof fn law_valid_address_not_spam(addr: Seq<char>)
    requires
        valid_address(addr),
    ensures
        !(encode_utf8(addr).len() < 10),
{
}

} // verus!
