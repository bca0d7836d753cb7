use devilchain::api::faucet;
use devilchain::blockchain::{Block, Blockchain, Ledger, Transaction};
use devilchain::tokenomics::{BURN_ADDRESS, DEV_WALLET, LIQUIDITY_LOCK_VAULT, MARKETING_WALLET, MINING_POOL_WALLET};
use ed25519_dalek::{Signer, SigningKey};
use sha2::{Digest, Sha256};

fn sha_hex(data: &[u8]) -> String {
    hex::encode(Sha256::digest(data))
}

struct Key {
    sk: SigningKey,
    pk_hex: String,
    address: String,
}

fn key(seed: u8) -> Key {
    let sk = SigningKey::from_bytes(&[seed; 32]);
    let pk = sk.verifying_key().to_bytes();
    let address = format!("db1x{}", &sha_hex(&Sha256::digest(pk))[..32]);
    Key { sk, pk_hex: hex::encode(pk), address }
}

fn signed_tx(k: &Key, to: &str, amount: u128, gas_fee: u128, nonce: u64, timestamp: u64) -> Transaction {
    let mut tx = Transaction {
        tx_hash: String::new(),
        from: k.address.clone(),
        to: to.to_string(),
        amount,
        gas_fee,
        nonce,
        data: None,
        signature: String::new(),
        public_key: k.pk_hex.clone(),
        timestamp,
    };
    let h = tx.compute_hash();
    tx.signature = hex::encode(k.sk.sign(h.as_bytes()).to_bytes());
    tx.tx_hash = h;
    tx
}

fn next_block(bc: &Blockchain, txs: Vec<Transaction>, validator: &str) -> Block {
    let prev = bc.latest_block().unwrap();
    let mut b = Block {
        height: bc.height(),
        timestamp: 1_700_000_100,
        previous_hash: prev.block_hash.clone(),
        block_hash: String::new(),
        merkle_root: Block::compute_merkle_root(&txs),
        transactions: txs,
        validator: validator.to_string(),
        nonce: 0,
        difficulty: 4,
        block_reward: 0,
        total_fees: 0,
        ai_score: 90,
        dao_signature: "sig".to_string(),
    };
    b.block_hash = b.compute_hash();
    b
}

#[test]
fn transaction_hash_is_sha256_of_payload() {
    let tx = Transaction {
        tx_hash: String::new(),
        from: "db1xa".to_string(),
        to: "db1xb".to_string(),
        amount: 50,
        gas_fee: 10_000,
        nonce: 3,
        data: None,
        signature: String::new(),
        public_key: String::new(),
        timestamp: 1700000000,
    };
    assert_eq!(tx.compute_hash(), sha_hex(b"db1xa:db1xb:50:10000:3:1700000000"));
}

#[test]
fn signature_and_sender_address() {
    let k = key(7);
    let tx = signed_tx(&k, "db1xbob", 5, 10_000, 0, 1);
    assert!(tx.verify_signature());
    assert_eq!(tx.sender_address(), k.address);
    assert!(tx.is_valid());
    let mut forged = tx.clone();
    forged.amount = 6;
    assert!(!forged.verify_signature());
    assert!(!forged.is_valid());
    let mut bad_key = tx.clone();
    bad_key.public_key = "zz".to_string();
    assert!(!bad_key.verify_signature());
    assert_eq!(bad_key.sender_address(), format!("db1x{}", &sha_hex(&Sha256::digest(b""))[..32]));
    let mut short_sig = tx.clone();
    short_sig.signature = "abcd".to_string();
    assert!(!short_sig.verify_signature());
}

#[test]
fn transaction_validity_rules() {
    let k = key(8);
    assert!(!signed_tx(&k, "db1xbob", 0, 10_000, 0, 1).is_valid());
    assert!(!signed_tx(&k, "db1xbob", 5, 9_999, 0, 1).is_valid());
    let mut wrong_from = signed_tx(&k, "db1xbob", 5, 10_000, 0, 1);
    wrong_from.from = "db1xsomeoneelse".to_string();
    assert!(!wrong_from.is_valid());
    let mut burn = signed_tx(&k, "db1xbob", 5, 10_000, 0, 1);
    burn.from = BURN_ADDRESS.to_string();
    assert!(!burn.is_valid());
}

#[test]
fn merkle_root_pairs_and_duplicates_last() {
    assert_eq!(Block::compute_merkle_root(&[]), sha_hex(b"empty"));
    let k = key(9);
    let t1 = signed_tx(&k, "db1xa", 1, 10_000, 0, 1);
    let t2 = signed_tx(&k, "db1xb", 2, 10_000, 1, 1);
    let t3 = signed_tx(&k, "db1xc", 3, 10_000, 2, 1);
    let (h1, h2, h3) = (t1.compute_hash(), t2.compute_hash(), t3.compute_hash());
    assert_eq!(Block::compute_merkle_root(&[t1.clone()]), h1);
    let h12 = sha_hex(format!("{}{}", h1, h2).as_bytes());
    assert_eq!(Block::compute_merkle_root(&[t1.clone(), t2.clone()]), h12);
    let h33 = sha_hex(format!("{}{}", h3, h3).as_bytes());
    let root = sha_hex(format!("{}{}", h12, h33).as_bytes());
    assert_eq!(Block::compute_merkle_root(&[t1, t2, t3]), root);
}

#[test]
fn block_hash_and_difficulty() {
    let bc = Blockchain::default();
    let g = bc.latest_block().unwrap();
    assert!(g.verify_hash());
    let expected = sha_hex(format!("0:1700000000:{}:{}:0:genesis", "0".repeat(64), sha_hex(b"empty")).as_bytes());
    assert_eq!(g.block_hash, expected);
    let mut b = g.clone();
    b.block_hash = "00ab".to_string();
    b.difficulty = 8;
    assert!(b.meets_difficulty());
    b.difficulty = 12;
    assert!(!b.meets_difficulty());
    b.difficulty = 3;
    assert!(b.meets_difficulty());
    b.difficulty = 20;
    assert!(!b.meets_difficulty());
    assert!(!b.verify_hash());
    // Difficulty counts bits of the hex digits.
    b.difficulty = 9;
    assert!(!b.meets_difficulty());
    b.block_hash = "04ab".to_string();
    b.difficulty = 6;
    assert!(!b.meets_difficulty());
    b.difficulty = 5;
    assert!(b.meets_difficulty());
    b.block_hash = "03ab".to_string();
    b.difficulty = 6;
    assert!(b.meets_difficulty());
    b.block_hash = "01zz".to_string();
    b.difficulty = 7;
    assert!(b.meets_difficulty());
    b.difficulty = 8;
    assert!(!b.meets_difficulty());
}

#[test]
fn genesis_state() {
    let bc = Blockchain::default();
    assert_eq!(bc.height(), 1);
    assert_eq!(bc.chain[0].height, 0);
    assert_eq!(bc.chain[0].previous_hash, "0".repeat(64));
    assert_eq!(bc.ledger.balance(DEV_WALLET), 100_000_000_000_000);
    assert_eq!(bc.ledger.balance("db1xecosystem"), 200_000_000_000_000);
    assert_eq!(bc.ledger.balance("db1xdao_treasury"), 150_000_000_000_000);
    assert_eq!(bc.ledger.balance(MINING_POOL_WALLET), 100_000_000_000_000);
    assert_eq!(bc.ledger.balance("db1xinvestors"), 50_000_000_000_000);
    assert_eq!(bc.ledger.balance("db1xcommunity"), 50_000_000_000_000);
    assert_eq!(bc.ledger.balance("db1xnobody"), 0);
    assert_eq!(bc.supply.total_minted, 650_000_000_000_000);
    assert!(bc.is_valid());
}

#[test]
fn ledger_credit_debit_nonce() {
    let mut l = Ledger::default();
    assert_eq!(l.balance("a"), 0);
    l.credit("a", 100);
    assert_eq!(l.balance("a"), 100);
    assert!(!l.debit("a", 101));
    assert_eq!(l.balance("a"), 100);
    assert!(l.debit("a", 40));
    assert_eq!(l.balance("a"), 60);
    assert!(!l.debit("b", 1));
    assert!(l.debit("b", 0));
    assert_eq!(l.nonce("a"), 0);
    l.increment_nonce("a");
    l.increment_nonce("a");
    assert_eq!(l.nonce("a"), 2);
}

#[test]
fn add_block_applies_transfer_fees_and_reward() {
    let mut bc = Blockchain::default();
    let alice = key(1);
    let bob = key(2);
    faucet(&mut bc, &alice.address);
    let tx = signed_tx(&alice, &bob.address, 50_000_000, 1_500_000, 0, 5);
    let block = next_block(&bc, vec![tx], "db1xminer");
    assert_eq!(bc.add_block(block), Ok(()));
    assert_eq!(bc.height(), 2);
    // Alice pays amount + gas, Bob receives the amount exactly
    assert_eq!(bc.ledger.balance(&alice.address), 100_000_000 - 50_000_000 - 1_500_000);
    assert_eq!(bc.ledger.balance(&bob.address), 50_000_000);
    assert_eq!(bc.ledger.nonce(&alice.address), 1);
    // miner: 55% of the fee plus the block reward
    assert_eq!(bc.ledger.balance("db1xminer"), 825_000 + 50_000_000);
    assert_eq!(bc.ledger.balance(DEV_WALLET), 100_000_000_000_000 + 270_000);
    assert_eq!(bc.ledger.balance(BURN_ADDRESS), 150_000);
    assert_eq!(bc.ledger.balance(LIQUIDITY_LOCK_VAULT), 150_000);
    assert_eq!(bc.ledger.balance(MARKETING_WALLET), 105_000);
    assert_eq!(bc.supply.total_burned, 150_000);
    assert_eq!(bc.supply.total_minted, 650_000_000_000_000 + 50_000_000);
    let last = bc.latest_block().unwrap();
    assert_eq!(last.total_fees, 1_500_000);
    assert_eq!(last.block_reward, 50_000_000);
    assert!(bc.is_valid());
}

#[test]
fn add_block_rejections() {
    let mut bc = Blockchain::default();
    let alice = key(3);
    faucet(&mut bc, &alice.address);
    let tx = signed_tx(&alice, "db1xbob", 1_000, 10_000, 0, 5);

    let mut bad_hash = next_block(&bc, vec![tx.clone()], "db1xminer");
    bad_hash.block_hash = "beef".to_string();
    assert_eq!(bc.add_block(bad_hash), Err("Invalid block hash"));

    let mut bad_prev = next_block(&bc, vec![tx.clone()], "db1xminer");
    bad_prev.previous_hash = "00".to_string();
    bad_prev.block_hash = bad_prev.compute_hash();
    assert_eq!(bc.add_block(bad_prev), Err("Previous hash mismatch"));

    let mut bad_root = next_block(&bc, vec![tx.clone()], "db1xminer");
    bad_root.merkle_root = "00".to_string();
    bad_root.block_hash = bad_root.compute_hash();
    assert_eq!(bc.add_block(bad_root), Err("Merkle root mismatch"));

    let wrong_nonce = signed_tx(&alice, "db1xbob", 1_000, 10_000, 5, 5);
    assert_eq!(bc.add_block(next_block(&bc, vec![wrong_nonce], "db1xminer")), Err("Invalid nonce"));

    let too_much = signed_tx(&alice, "db1xbob", 100_000_000, 10_000, 0, 5);
    assert_eq!(bc.add_block(next_block(&bc, vec![too_much], "db1xminer")), Err("Insufficient balance"));

    let mut unsigned = tx.clone();
    unsigned.signature = "00".repeat(64);
    assert_eq!(bc.add_block(next_block(&bc, vec![unsigned], "db1xminer")), Err("Invalid transaction signature"));

    assert_eq!(bc.height(), 1);
    assert_eq!(bc.ledger.balance(&alice.address), 100_000_000);
}

#[test]
fn replayed_transaction_is_refused() {
    let mut bc = Blockchain::default();
    let alice = key(4);
    faucet(&mut bc, &alice.address);
    let tx = signed_tx(&alice, "db1xbob", 1_000, 10_000, 0, 5);
    assert_eq!(bc.add_block(next_block(&bc, vec![tx.clone()], "db1xminer")), Ok(()));
    assert_eq!(bc.add_block(next_block(&bc, vec![tx], "db1xminer")), Err("Invalid nonce"));
    assert_eq!(bc.height(), 2);
}

#[test]
fn failing_transaction_keeps_earlier_ones_applied() {
    let mut bc = Blockchain::default();
    let alice = key(5);
    faucet(&mut bc, &alice.address);
    let ok = signed_tx(&alice, "db1xbob", 1_000, 10_000, 0, 5);
    let bad = signed_tx(&alice, "db1xbob", 1_000, 10_000, 7, 5);
    assert_eq!(bc.add_block(next_block(&bc, vec![ok, bad], "db1xminer")), Err("Invalid nonce"));
    assert_eq!(bc.height(), 1);
    assert_eq!(bc.ledger.balance("db1xbob"), 1_000);
    assert_eq!(bc.ledger.nonce(&alice.address), 1);
}

#[test]
fn tampered_chain_is_invalid() {
    let mut bc = Blockchain::default();
    let alice = key(6);
    faucet(&mut bc, &alice.address);
    let tx = signed_tx(&alice, "db1xbob", 1_000, 10_000, 0, 5);
    assert_eq!(bc.add_block(next_block(&bc, vec![tx], "db1xminer")), Ok(()));
    assert!(bc.is_valid());
    bc.chain[1].transactions[0].amount = 2_000;
    assert!(!bc.is_valid());
}

#[test]
fn transactions_are_found_on_the_chain() {
    let mut bc = Blockchain::default();
    let alice = key(7);
    let bob = key(8);
    faucet(&mut bc, &alice.address);
    faucet(&mut bc, &bob.address);
    let t1 = signed_tx(&alice, &bob.address, 1_000, 10_000, 0, 5);
    let t2 = signed_tx(&bob, "db1xcarol", 2_000, 10_000, 0, 6);
    assert_eq!(bc.add_block(next_block(&bc, vec![t1.clone(), t2.clone()], "db1xminer")), Ok(()));
    let t3 = signed_tx(&alice, "db1xcarol", 3_000, 10_000, 1, 7);
    assert_eq!(bc.add_block(next_block(&bc, vec![t3.clone()], "db1xminer")), Ok(()));

    assert_eq!(bc.get_transaction(&t2.tx_hash).unwrap().amount, 2_000);
    assert_eq!(bc.get_transaction(&t3.tx_hash).unwrap().to, "db1xcarol");
    assert!(bc.get_transaction("nope").is_none());

    let of_alice: Vec<u128> = bc.transactions_of(&alice.address).iter().map(|t| t.amount).collect();
    assert_eq!(of_alice, vec![1_000, 3_000]);
    let of_bob: Vec<u128> = bc.transactions_of(&bob.address).iter().map(|t| t.amount).collect();
    assert_eq!(of_bob, vec![1_000, 2_000]);
    let of_carol: Vec<u128> = bc.transactions_of("db1xcarol").iter().map(|t| t.amount).collect();
    assert_eq!(of_carol, vec![2_000, 3_000]);
    assert!(bc.transactions_of("db1xnobody").is_empty());
}

#[test]
fn fees_after_burn_cap_follow_post_burn_split() {
    let mut bc = Blockchain::default();
    bc.supply.burn_stopped = true;
    let alice = key(10);
    let bob = key(11);
    faucet(&mut bc, &alice.address);
    let tx = signed_tx(&alice, &bob.address, 50_000_000, 1_000_000, 0, 5);
    assert_eq!(bc.add_block(next_block(&bc, vec![tx], "db1xminer")), Ok(()));
    assert_eq!(bc.ledger.balance("db1xminer"), 550_000 + 50_000_000);
    assert_eq!(bc.ledger.balance(DEV_WALLET), 100_000_000_000_000 + 230_000);
    assert_eq!(bc.ledger.balance(BURN_ADDRESS), 0);
    assert_eq!(bc.ledger.balance(LIQUIDITY_LOCK_VAULT), 150_000);
    assert_eq!(bc.ledger.balance(MARKETING_WALLET), 70_000);
    assert_eq!(bc.supply.total_burned, 0);
}

#[test]
fn block_sums_fit_before_appending() {
    let mut bc = Blockchain::default();
    let alice = key(12);
    faucet(&mut bc, &alice.address);
    let tx = signed_tx(&alice, "db1xbob", 1_000, 10_000, 0, 5);
    let ok_block = next_block(&bc, vec![tx.clone()], "db1xminer");
    assert!(bc.block_sums_fit(&ok_block));
    bc.ledger.credit("db1xbob", u128::MAX - 10);
    assert!(!bc.block_sums_fit(&ok_block));
    let mut bad = ok_block.clone();
    bad.block_hash = "beef".to_string();
    assert!(bc.block_sums_fit(&bad));
    bc.ledger.credit("db1xminer", u128::MAX - 100);
    let empty = next_block(&bc, vec![], "db1xminer");
    assert!(!bc.block_sums_fit(&empty));
}
