use devilchain::blockchain::Transaction;
use devilchain::mempool::Mempool;
use ed25519_dalek::{Signer, SigningKey};
use sha2::{Digest, Sha256};

struct Key {
    sk: SigningKey,
    pk_hex: String,
    address: String,
}

fn key(seed: u8) -> Key {
    let sk = SigningKey::from_bytes(&[seed; 32]);
    let pk = sk.verifying_key().to_bytes();
    let address = format!("db1x{}", &hex::encode(Sha256::digest(Sha256::digest(pk)))[..32]);
    Key { sk, pk_hex: hex::encode(pk), address }
}

fn signed_tx(k: &Key, amount: u128, gas_fee: u128, nonce: u64, timestamp: u64) -> Transaction {
    let mut tx = Transaction {
        tx_hash: String::new(),
        from: k.address.clone(),
        to: "db1xreceiver".to_string(),
        amount,
        gas_fee,
        nonce,
        data: None,
        signature: String::new(),
        public_key: k.pk_hex.clone(),
        timestamp,
    };
    let h = tx.compute_hash();
    tx.signature = hex::encode(k.sk.sign(h.as_bytes()).to_bytes());
    tx.tx_hash = h;
    tx
}

#[test]
fn new_and_default_pools_are_empty() {
    let m = Mempool::new(10);
    assert!(m.is_empty());
    assert_eq!(m.len(), 0);
    let d = Mempool::default();
    assert!(d.is_empty());
    assert!(d.peek().is_empty());
}

#[test]
fn valid_transaction_is_admitted() {
    let k = key(1);
    let mut m = Mempool::new(10);
    let tx = signed_tx(&k, 100, 10_000, 0, 1);
    let hash = tx.tx_hash.clone();
    assert_eq!(m.add_transaction(tx), Ok(()));
    assert_eq!(m.len(), 1);
    assert!(!m.is_empty());
    assert_eq!(m.peek()[0].tx_hash, hash);
}

#[test]
fn duplicate_hash_is_refused() {
    let k = key(2);
    let mut m = Mempool::new(10);
    let tx = signed_tx(&k, 100, 10_000, 0, 1);
    assert_eq!(m.add_transaction(tx.clone()), Ok(()));
    assert_eq!(m.add_transaction(tx), Err("Duplicate TX"));
    assert_eq!(m.len(), 1);
}

#[test]
fn full_pool_refuses_first() {
    let k = key(3);
    let mut m = Mempool::new(1);
    assert_eq!(m.add_transaction(signed_tx(&k, 100, 10_000, 0, 1)), Ok(()));
    // Even a duplicate is answered "Mempool full" once the pool is full.
    assert_eq!(m.add_transaction(signed_tx(&k, 100, 10_000, 0, 1)), Err("Mempool full"));
    assert_eq!(m.add_transaction(signed_tx(&k, 100, 10_000, 1, 2)), Err("Mempool full"));
    let mut zero = Mempool::new(0);
    assert_eq!(zero.add_transaction(signed_tx(&k, 100, 10_000, 0, 1)), Err("Mempool full"));
}

#[test]
fn low_gas_is_refused() {
    let k = key(4);
    let mut m = Mempool::new(10);
    assert_eq!(m.add_transaction(signed_tx(&k, 100, 9_999, 0, 1)), Err("Gas fee too low"));
    assert!(m.is_empty());
}

#[test]
fn nonce_below_floor_is_refused() {
    let k = key(5);
    let mut m = Mempool::new(10);
    assert_eq!(m.add_transaction(signed_tx(&k, 100, 10_000, 5, 1)), Ok(()));
    assert_eq!(m.add_transaction(signed_tx(&k, 100, 10_000, 3, 2)), Err("Nonce too low (replay)"));
    // The same nonce again (another timestamp) is still at the floor, so it passes.
    assert_eq!(m.add_transaction(signed_tx(&k, 100, 10_000, 5, 3)), Ok(()));
    assert_eq!(m.len(), 2);
    // Another sender has its own floor.
    let other = key(6);
    assert_eq!(m.add_transaction(signed_tx(&other, 100, 10_000, 0, 4)), Ok(()));
}

#[test]
fn bad_signature_is_refused() {
    let k = key(7);
    let mut m = Mempool::new(10);
    let mut tx = signed_tx(&k, 100, 10_000, 0, 1);
    tx.amount = 101;
    assert_eq!(m.add_transaction(tx), Err("Invalid TX signature"));
    let mut zero_amount = signed_tx(&k, 0, 10_000, 0, 2);
    zero_amount.tx_hash = "x".to_string();
    assert_eq!(m.add_transaction(zero_amount), Err("Invalid TX signature"));
    assert!(m.is_empty());
}

#[test]
fn pop_takes_highest_fees_first() {
    let k = key(8);
    let mut m = Mempool::new(10);
    let fees = [10_000u128, 50_000, 20_000, 40_000, 30_000];
    for (i, fee) in fees.iter().enumerate() {
        assert_eq!(m.add_transaction(signed_tx(&k, 100, *fee, i as u64, i as u64)), Ok(()));
    }
    let top = m.pop_transactions(3);
    let got: Vec<u128> = top.iter().map(|t| t.gas_fee).collect();
    assert_eq!(got, vec![50_000, 40_000, 30_000]);
    assert_eq!(m.len(), 2);
    let rest = m.pop_transactions(10);
    let got: Vec<u128> = rest.iter().map(|t| t.gas_fee).collect();
    assert_eq!(got, vec![20_000, 10_000]);
    assert!(m.is_empty());
    assert!(m.pop_transactions(5).is_empty());
}

#[test]
fn popped_transactions_leave_room() {
    let k = key(9);
    let mut m = Mempool::new(1);
    assert_eq!(m.add_transaction(signed_tx(&k, 100, 10_000, 0, 1)), Ok(()));
    assert_eq!(m.pop_transactions(1).len(), 1);
    assert_eq!(m.add_transaction(signed_tx(&k, 100, 10_000, 1, 2)), Ok(()));
    // The nonce floor survives popping.
    let mut m2 = Mempool::new(5);
    assert_eq!(m2.add_transaction(signed_tx(&k, 100, 10_000, 4, 1)), Ok(()));
    m2.pop_transactions(1);
    assert_eq!(m2.add_transaction(signed_tx(&k, 100, 10_000, 2, 2)), Err("Nonce too low (replay)"));
}
