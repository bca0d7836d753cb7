use devilchain::ai::DevilGuardAI;
use devilchain::api::{
    check_send_request, check_send_request_guarded, faucet, stake, stake_message, verify_sig, vote_message, voting_power_for, SendTxRequest,
    StakeRequest, FAUCET_AMOUNT,
};
use devilchain::blockchain::{Block, Blockchain, Transaction};
use devilchain::bridge::{BridgeStatus, DevilBridge};
use devilchain::consensus::ValidatorRegistry;
use devilchain::crypto::{decode_hex, encode_hex, sha256_hex};
use devilchain::mining::{build_dao_signature, candidate_block, valid_transactions};
use devilchain::sdk::DevilChainClient;
use devilchain::strmap::StrMap;
use devilchain::text::{contains, decimal_string, starts_with, str_eq};
use devilchain::tokenomics::{block_reward_at, MINING_POOL_WALLET};
use devilchain::wallet::Wallet;
use ed25519_dalek::{Signer, SigningKey};
use sha2::{Digest, Sha256};

fn sha_hex(data: &[u8]) -> String {
    hex::encode(Sha256::digest(data))
}

struct Key {
    sk: SigningKey,
    pk_hex: String,
    address: String,
}

fn key(seed: u8) -> Key {
    let sk = SigningKey::from_bytes(&[seed; 32]);
    let pk = sk.verifying_key().to_bytes();
    let address = format!("db1x{}", &sha_hex(&Sha256::digest(pk))[..32]);
    Key { sk, pk_hex: hex::encode(pk), address }
}

fn sign(k: &Key, msg: &str) -> String {
    hex::encode(k.sk.sign(msg.as_bytes()).to_bytes())
}

fn signed_tx(k: &Key, amount: u128, nonce: u64) -> Transaction {
    let mut tx = Transaction {
        tx_hash: String::new(),
        from: k.address.clone(),
        to: "db1xreceiver".to_string(),
        amount,
        gas_fee: 10_000,
        nonce,
        data: None,
        signature: String::new(),
        public_key: k.pk_hex.clone(),
        timestamp: 5,
    };
    let h = tx.compute_hash();
    tx.signature = sign(k, &h);
    tx.tx_hash = h;
    tx
}

fn send_request(k: &Key, amount: u128, gas_fee: u128, nonce: u64, timestamp: u64) -> SendTxRequest {
    let payload = format!("{}:{}:{}:{}:{}:{}", k.address, "db1xbob", amount, gas_fee, nonce, timestamp);
    let hash = sha_hex(payload.as_bytes());
    SendTxRequest {
        from: k.address.clone(),
        to: "db1xbob".to_string(),
        amount,
        gas_fee,
        nonce,
        public_key: k.pk_hex.clone(),
        signature: sign(k, &hash),
        data: Some("memo".to_string()),
    }
}

#[test]
fn rug_pull_markers() {
    assert!(DevilGuardAI::detect_rug_pull("fn x() { selfdestruct(owner) }"));
    assert!(DevilGuardAI::detect_rug_pull("withdraw_all"));
    assert!(!DevilGuardAI::detect_rug_pull("withdraw_al selfdestruc"));
    assert!(!DevilGuardAI::detect_rug_pull(""));
}

#[test]
fn spam_addresses_are_short() {
    assert!(DevilGuardAI::detect_spam_address("db1xabc"));
    assert!(DevilGuardAI::detect_spam_address("123456789"));
    assert!(!DevilGuardAI::detect_spam_address("1234567890"));
}

#[test]
fn wallet_from_seed_derivation() {
    let seed = [7u8; 32];
    let w = Wallet::from_seed(&seed);
    let h = Sha256::digest(seed);
    assert_eq!(w.public_key, hex::encode(h));
    assert_eq!(w.address, format!("db1x{}", hex::encode(&h[..16])));
    assert_eq!(w.address.len(), 36);
    assert!(Wallet::is_valid_address(&w.address));
    assert!(!DevilGuardAI::detect_spam_address(&w.address));
}

#[test]
fn generated_wallets_are_valid_and_distinct() {
    let a = Wallet::generate();
    let b = Wallet::generate();
    assert!(Wallet::is_valid_address(&a.address));
    assert_eq!(a.public_key.len(), 64);
    assert!(a.public_key.starts_with(&a.address[4..]));
    assert_ne!(a.address, b.address);
}

#[test]
fn address_format_check() {
    assert!(Wallet::is_valid_address("db1x0123456789abcdef"));
    assert!(!Wallet::is_valid_address("db1x0123456789abcde"));
    assert!(!Wallet::is_valid_address("dbx10123456789abcdef"));
    assert!(!Wallet::is_valid_address(""));
}

#[test]
fn client_urls() {
    let c = DevilChainClient::new("http://localhost:8545");
    assert_eq!(c.base_url, "http://localhost:8545");
    assert_eq!(c.status_url(), "http://localhost:8545/api/status");
    assert_eq!(c.latest_block_url(), "http://localhost:8545/api/block/latest");
    assert_eq!(c.wallet_url("db1xabc"), "http://localhost:8545/api/wallet/db1xabc");
}

#[test]
fn signature_helper() {
    let k = key(11);
    let sig = sign(&k, "hello");
    assert!(verify_sig(&k.pk_hex, &sig, "hello"));
    assert!(!verify_sig(&k.pk_hex, &sig, "hellO"));
    assert!(!verify_sig("zz", &sig, "hello"));
    assert!(!verify_sig(&k.pk_hex[..62], &sig, "hello"));
    assert!(!verify_sig(&k.pk_hex, &sig[..126], "hello"));
}

#[test]
fn signed_messages() {
    assert_eq!(stake_message("db1xabc", 150_000_000), "stake:db1xabc:150000000");
    assert_eq!(vote_message(7, true), "vote:7:true");
    assert_eq!(vote_message(0, false), "vote:0:false");
}

#[test]
fn staking_registers_signed_requests() {
    let k = key(12);
    let mut reg = ValidatorRegistry::default();
    let req = StakeRequest {
        address: k.address.clone(),
        amount: 150_000_000,
        signature: sign(&k, &format!("stake:{}:{}", k.address, 150_000_000u128)),
        public_key: k.pk_hex.clone(),
    };
    assert_eq!(stake(&mut reg, &req), Ok(150_000_000));
    let v = reg.get(&k.address).unwrap();
    assert_eq!(v.stake, 150_000_000);
    assert_eq!(v.reputation, 50);
    assert!(v.active);
    assert_eq!(voting_power_for(&reg, &k.address), 150_000_000 * 50);
    assert_eq!(voting_power_for(&reg, "db1xnobody"), 1_000_000);
}

#[test]
fn small_or_unsigned_stakes() {
    let k = key(13);
    let mut reg = ValidatorRegistry::default();
    let small = StakeRequest {
        address: k.address.clone(),
        amount: 5,
        signature: sign(&k, &format!("stake:{}:5", k.address)),
        public_key: k.pk_hex.clone(),
    };
    assert_eq!(stake(&mut reg, &small), Ok(5));
    assert!(reg.get(&k.address).is_none());
    let forged = StakeRequest { amount: 150_000_000, ..small };
    assert_eq!(stake(&mut reg, &forged), Err("Invalid stake signature"));
    assert!(reg.get(&k.address).is_none());
}

#[test]
fn faucet_credits_hundred_dvc() {
    let mut bc = Blockchain::default();
    assert_eq!(faucet(&mut bc, "db1xnew"), FAUCET_AMOUNT);
    assert_eq!(FAUCET_AMOUNT, 100_000_000);
    faucet(&mut bc, "db1xnew");
    assert_eq!(bc.ledger.balance("db1xnew"), 200_000_000);
}

#[test]
fn send_request_becomes_a_transaction() {
    let k = key(14);
    let mut bc = Blockchain::default();
    faucet(&mut bc, &k.address);
    let req = send_request(&k, 1_000, 10_000, 0, 1_700_000_500);
    let tx = check_send_request(&bc, &req, 1_700_000_500).unwrap();
    assert_eq!(tx.from, k.address);
    assert_eq!(tx.to, "db1xbob");
    assert_eq!(tx.amount, 1_000);
    assert_eq!(tx.gas_fee, 10_000);
    assert_eq!(tx.data, Some("memo".to_string()));
    assert_eq!(tx.timestamp, 1_700_000_500);
    assert_eq!(tx.tx_hash, tx.compute_hash());
    assert!(tx.is_valid());
}

#[test]
fn send_request_errors() {
    let k = key(15);
    let mut bc = Blockchain::default();
    let ts = 9;
    let zero = send_request(&k, 0, 10_000, 0, ts);
    assert_eq!(check_send_request(&bc, &zero, ts).err(), Some("Amount must be > 0"));
    let cheap = send_request(&k, 1, 9_999, 0, ts);
    assert_eq!(check_send_request(&bc, &cheap, ts).err(), Some("Gas fee too low"));
    let good = send_request(&k, 1, 10_000, 0, ts);
    assert_eq!(check_send_request(&bc, &good, ts + 1).err(), Some("Invalid signature — transaction rejected"));
    let other = key(16);
    let mut stolen = send_request(&other, 1, 10_000, 0, ts);
    stolen.from = k.address.clone();
    let payload = format!("{}:{}:{}:{}:{}:{}", k.address, "db1xbob", 1, 10_000, 0, ts);
    stolen.signature = sign(&other, &sha_hex(payload.as_bytes()));
    assert_eq!(check_send_request(&bc, &stolen, ts).err(), Some("Public key does not match from address"));
    let wrong_nonce = send_request(&k, 1, 10_000, 1, ts);
    assert_eq!(check_send_request(&bc, &wrong_nonce, ts).err(), Some("Invalid nonce"));
    assert_eq!(check_send_request(&bc, &good, ts).err(), Some("Insufficient balance"));
    faucet(&mut bc, &k.address);
    assert!(check_send_request(&bc, &good, ts).is_ok());
}

#[test]
fn dao_signature_is_truncated_sha256() {
    let sig = build_dao_signature(5, "abc", 2);
    let full = Sha256::digest(b"dao:5:abc:2");
    assert_eq!(sig, hex::encode(&full[..16]));
    assert_eq!(sig.len(), 32);
}

#[test]
fn invalid_transactions_are_dropped_in_order() {
    let k = key(17);
    let a = signed_tx(&k, 10, 0);
    let mut bad = signed_tx(&k, 20, 1);
    bad.amount = 21;
    let c = signed_tx(&k, 30, 2);
    let kept = valid_transactions(vec![a.clone(), bad, c.clone()]);
    let hashes: Vec<String> = kept.iter().map(|t| t.tx_hash.clone()).collect();
    assert_eq!(hashes, vec![a.tx_hash, c.tx_hash]);
}

#[test]
fn candidate_block_fields() {
    let k = key(18);
    let a = signed_tx(&k, 10, 0);
    let mut bad = signed_tx(&k, 20, 1);
    bad.signature = "00".to_string();
    let b = candidate_block(
        7,
        1_700_000_009,
        "prev".to_string(),
        4,
        vec![a.clone(), bad],
        MINING_POOL_WALLET.to_string(),
        85,
        "dao".to_string(),
    );
    assert_eq!(b.height, 7);
    assert_eq!(b.timestamp, 1_700_000_009);
    assert_eq!(b.previous_hash, "prev");
    assert_eq!(b.block_hash, "");
    assert_eq!(b.transactions.len(), 1);
    assert_eq!(b.merkle_root, Block::compute_merkle_root(&[a]));
    assert_eq!(b.nonce, 0);
    assert_eq!(b.difficulty, 4);
    assert_eq!(b.block_reward, block_reward_at(7));
    assert_eq!(b.total_fees, 0);
    assert_eq!(b.ai_score, 85);
    assert_eq!(b.dao_signature, "dao");
}

#[test]
fn hex_and_hash_helpers() {
    assert_eq!(encode_hex(&[0x00, 0xab, 0xff]), "00abff");
    assert_eq!(decode_hex("00ABff"), Some(vec![0x00, 0xab, 0xff]));
    assert_eq!(decode_hex("abc"), None);
    assert_eq!(decode_hex("zz"), None);
    assert_eq!(decode_hex(""), Some(vec![]));
    assert_eq!(sha256_hex(b"abc"), "ba7816bf8f01cfea414140de5dae2223b00361a396177a9cb410ff61f20015ad");
}

#[test]
fn text_helpers() {
    assert_eq!(decimal_string(0), "0");
    assert_eq!(decimal_string(340282366920938463463374607431768211455), u128::MAX.to_string());
    assert!(starts_with("db1xabc", "db1x"));
    assert!(!starts_with("db1", "db1x"));
    assert!(contains("abcdef", "cde"));
    assert!(contains("abc", ""));
    assert!(!contains("abc", "abcd"));
    assert!(str_eq("same", "same"));
    assert!(!str_eq("same", "Same"));
}

#[test]
fn string_keyed_map() {
    let mut m: StrMap<u64> = StrMap::new();
    m.insert("a".to_string(), 1);
    m.insert("b".to_string(), 2);
    m.insert("a".to_string(), 3);
    assert_eq!(m.len(), 2);
    assert_eq!(m.get("a"), Some(&3));
    assert!(m.contains_key("b"));
    assert_eq!(m.remove("b"), Some(2));
    assert_eq!(m.remove("b"), None);
    assert_eq!(m.get("b"), None);
    assert_eq!(m.values(), vec![&3]);
}

#[test]
fn bridge_locks_then_mints() {
    let req = ("db1xalice", 12.5_f64, "DVC");
    assert_eq!(DevilBridge::lock(&req), BridgeStatus::Locked);
    assert_eq!(DevilBridge::mint(&req), BridgeStatus::Completed);
    assert_eq!(DevilBridge::bridge(req), BridgeStatus::Completed);
}

#[test]
fn overflowing_requests_keep_their_errors() {
    let k = key(19);
    let bc = Blockchain::default();
    let ts = 11;
    // A request whose sum overflows but whose signature does not hold is
    // refused with the signature error.
    let good = send_request(&k, u128::MAX, 10_000, 0, ts);
    assert_eq!(
        check_send_request_guarded(&bc, &good, ts + 1).unwrap().err(),
        Some("Invalid signature — transaction rejected")
    );
    let wrong_nonce = send_request(&k, u128::MAX, 10_000, 3, ts);
    assert_eq!(check_send_request_guarded(&bc, &wrong_nonce, ts).unwrap().err(), Some("Invalid nonce"));
    // One that passes every check before the balance overflows the sum.
    assert!(check_send_request_guarded(&bc, &good, ts).is_none());
    // An ordinary request is answered as by the check itself.
    let small = send_request(&k, 1, 10_000, 0, ts);
    assert_eq!(check_send_request_guarded(&bc, &small, ts).unwrap().err(), Some("Insufficient balance"));
}
