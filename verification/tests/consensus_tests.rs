use devilchain::blockchain::Block;
use devilchain::consensus::{DHPConsensus, Validator, ValidatorRegistry, MIN_STAKE};
use devilchain::tokenomics::MINING_POOL_WALLET;
use sha2::{Digest, Sha256};

fn validator(addr: &str, stake: u128, reputation: u32, active: bool) -> Validator {
    Validator { address: addr.to_string(), stake, reputation, blocks_produced: 0, active }
}

fn candidate(prev: &str) -> Block {
    Block {
        height: 1,
        timestamp: 1_700_000_003,
        previous_hash: prev.to_string(),
        block_hash: String::new(),
        merkle_root: Block::compute_merkle_root(&[]),
        transactions: vec![],
        validator: MINING_POOL_WALLET.to_string(),
        nonce: 0,
        difficulty: 4,
        block_reward: 0,
        total_fees: 0,
        ai_score: 85,
        dao_signature: "0123456789abcdef0123456789abcdef".to_string(),
    }
}

#[test]
fn voting_power_is_stake_times_reputation() {
    assert_eq!(validator("a", 500_000_000, 80, true).voting_power(), 40_000_000_000);
    assert_eq!(validator("a", u128::MAX, 2, true).voting_power(), u128::MAX);
    assert_eq!(validator("a", 7, 0, true).voting_power(), 0);
}

#[test]
fn default_registry_holds_the_mining_pool() {
    let reg = ValidatorRegistry::default();
    assert_eq!(reg.get_all().len(), 1);
    let v = reg.get(MINING_POOL_WALLET).unwrap();
    assert_eq!(v.stake, 500 * 1_000_000);
    assert_eq!(v.reputation, 80);
    assert_eq!(v.blocks_produced, 0);
    assert!(v.active);
    assert!(reg.is_eligible(MINING_POOL_WALLET));
    assert!(!reg.is_eligible("db1xnobody"));
}

#[test]
fn registration_needs_minimum_stake() {
    let mut reg = ValidatorRegistry::default();
    assert_eq!(reg.register(validator("db1xpoor", MIN_STAKE - 1, 50, true)), Err("Insufficient stake"));
    assert!(reg.get("db1xpoor").is_none());
    assert_eq!(reg.register(validator("db1xrich", MIN_STAKE, 50, true)), Ok(()));
    assert!(reg.is_eligible("db1xrich"));
    assert_eq!(reg.get_all().len(), 2);
    // Registering again replaces the record.
    assert_eq!(reg.register(validator("db1xrich", MIN_STAKE, 50, false)), Ok(()));
    assert!(!reg.is_eligible("db1xrich"));
    assert_eq!(reg.get_all().len(), 2);
}

#[test]
fn selection_without_eligible_validators_is_none() {
    let mut reg = ValidatorRegistry::default();
    assert_eq!(reg.register(validator(MINING_POOL_WALLET, 500_000_000, 80, false)), Ok(()));
    assert_eq!(reg.select_validator("entropy"), None);
    // Eligible but with no voting power at all.
    assert_eq!(reg.register(validator("db1xzero", MIN_STAKE, 0, true)), Ok(()));
    assert_eq!(reg.select_validator("entropy"), None);
}

#[test]
fn single_validator_is_always_selected() {
    let reg = ValidatorRegistry::default();
    for e in ["", "a", "prevhash", "00000abc"] {
        assert_eq!(reg.select_validator(e), Some(MINING_POOL_WALLET.to_string()));
    }
}

#[test]
fn selection_follows_the_weighted_pick() {
    let mut reg = ValidatorRegistry::default();
    assert_eq!(reg.register(validator("db1xsecond", 300_000_000, 50, true)), Ok(()));
    assert_eq!(reg.register(validator("db1xidle", 900_000_000, 90, false)), Ok(()));
    let p1: u128 = 500_000_000 * 80;
    let p2: u128 = 300_000_000 * 50;
    for e in ["alpha", "beta", "gamma", "delta", "epsilon"] {
        let seed = Sha256::digest(e.as_bytes());
        let mut first = [0u8; 16];
        first.copy_from_slice(&seed[..16]);
        let pick = u128::from_be_bytes(first) % (p1 + p2);
        let expected = if pick < p1 { MINING_POOL_WALLET } else { "db1xsecond" };
        assert_eq!(reg.select_validator(e), Some(expected.to_string()));
    }
}

#[test]
fn rewarding_counts_blocks_and_caps_reputation() {
    let mut reg = ValidatorRegistry::default();
    reg.reward_validator(MINING_POOL_WALLET);
    let v = reg.get(MINING_POOL_WALLET).unwrap();
    assert_eq!(v.blocks_produced, 1);
    assert_eq!(v.reputation, 81);
    for _ in 0..30 {
        reg.reward_validator(MINING_POOL_WALLET);
    }
    let v = reg.get(MINING_POOL_WALLET).unwrap();
    assert_eq!(v.blocks_produced, 31);
    assert_eq!(v.reputation, 100);
    reg.reward_validator("db1xnobody");
    assert_eq!(reg.get_all().len(), 1);
}

#[test]
fn default_consensus_parameters() {
    let c = DHPConsensus::default();
    assert_eq!(c.difficulty, 4);
    assert_eq!(c.target_block_time, 3);
    assert!(c.validators.is_eligible(MINING_POOL_WALLET));
}

#[test]
fn difficulty_adjusts_within_bounds() {
    let mut c = DHPConsensus::default();
    c.adjust_difficulty(1);
    assert_eq!(c.difficulty, 5);
    c.adjust_difficulty(2);
    assert_eq!(c.difficulty, 5);
    c.adjust_difficulty(4);
    assert_eq!(c.difficulty, 5);
    c.adjust_difficulty(5);
    assert_eq!(c.difficulty, 4);
    c.difficulty = 32;
    c.adjust_difficulty(0);
    assert_eq!(c.difficulty, 32);
    c.difficulty = 2;
    c.adjust_difficulty(100);
    assert_eq!(c.difficulty, 2);
    c.difficulty = 0;
    c.adjust_difficulty(100);
    assert_eq!(c.difficulty, 2);
}

#[test]
fn mined_block_has_first_working_nonce() {
    let c = DHPConsensus::default();
    let cand = candidate(&"0".repeat(64));
    let mined = c.mine_block(cand.clone()).unwrap();
    assert!(mined.block_hash.starts_with("0"));
    assert!(mined.verify_hash());
    assert!(mined.meets_difficulty());
    for n in 0..mined.nonce {
        let mut b = cand.clone();
        b.nonce = n;
        assert!(!b.compute_hash().starts_with("0"));
    }
    assert_eq!(mined.height, cand.height);
    assert_eq!(mined.previous_hash, cand.previous_hash);
    assert!(c.validate_block(&mined, &"0".repeat(64)));
}

#[test]
fn validation_checks_each_rule() {
    let c = DHPConsensus::default();
    let prev = "ab".repeat(32);
    let mined = c.mine_block(candidate(&prev)).unwrap();
    assert!(c.validate_block(&mined, &prev));
    assert!(!c.validate_block(&mined, &"0".repeat(64)));
    let mut low_ai = mined.clone();
    low_ai.ai_score = 49;
    assert!(!c.validate_block(&low_ai, &prev));
    let mut no_dao = mined.clone();
    no_dao.dao_signature = String::new();
    assert!(!c.validate_block(&no_dao, &prev));
    let mut bad_root = mined.clone();
    bad_root.merkle_root = "00".to_string();
    assert!(!c.validate_block(&bad_root, &prev));
    let mut tampered = mined.clone();
    tampered.timestamp += 1;
    assert!(!c.validate_block(&tampered, &prev));
}
