use devilchain::tokenomics::{
    block_reward_at, compute_gas, split_fee, split_fee_with_state, LiquidityPool, NftAttribute, NftMetadata,
    NftRegistry, NftToken, SupplyTracker, TxType, BLOCK_REWARD, BURN_CAP, FIVE_YEARS_SECS, LIQUIDITY_TARGET,
    MAX_SUPPLY, MIN_GAS_FEE,
};

#[test]
fn gas_floor_applies_to_small_amounts() {
    assert_eq!(compute_gas(1_000, TxType::Transfer), MIN_GAS_FEE);
    assert_eq!(compute_gas(0, TxType::Contract), MIN_GAS_FEE);
}

#[test]
fn gas_rates_by_type() {
    let amount = 100_000_000; // 100 DVC
    assert_eq!(compute_gas(amount, TxType::Transfer), 300_000);
    assert_eq!(compute_gas(amount, TxType::DexSwap), 1_500_000);
    assert_eq!(compute_gas(amount, TxType::NftSale), 2_000_000);
    assert_eq!(compute_gas(amount, TxType::Contract), 5_000_000);
    assert_eq!(TxType::default(), TxType::Transfer);
}

#[test]
fn dex_swap_example_from_fee_schedule() {
    let s = split_fee(1_500_000);
    assert_eq!(s.miner, 825_000);
    assert_eq!(s.dev, 270_000);
    assert_eq!(s.burn, 150_000);
    assert_eq!(s.liquidity, 150_000);
    assert_eq!(s.marketing, 105_000);
}

#[test]
fn post_burn_split_redirects_burn_share() {
    let s = split_fee_with_state(1_000_000, true);
    assert_eq!(s.miner, 550_000);
    assert_eq!(s.dev, 230_000);
    assert_eq!(s.burn, 0);
    assert_eq!(s.liquidity, 150_000);
    assert_eq!(s.marketing, 70_000);
}

#[test]
fn split_always_adds_up_to_fee() {
    for fee in [0u128, 1, 7, 99, 101, 12_345, 999_999_999] {
        for stopped in [false, true] {
            let s = split_fee_with_state(fee, stopped);
            assert_eq!(s.miner + s.dev + s.burn + s.liquidity + s.marketing, fee);
        }
    }
    // rounding remainder lands in marketing
    let s = split_fee(1);
    assert_eq!((s.miner, s.dev, s.burn, s.liquidity, s.marketing), (0, 0, 0, 0, 1));
}

#[test]
fn reward_halves() {
    assert_eq!(block_reward_at(0), BLOCK_REWARD);
    assert_eq!(block_reward_at(2_099_999), 50_000_000);
    assert_eq!(block_reward_at(2_100_000), 25_000_000);
    assert_eq!(block_reward_at(4_200_000), 12_500_000);
    assert_eq!(block_reward_at(2_100_000 * 63), 0);
    assert_eq!(block_reward_at(2_100_000 * 64), 0);
    assert_eq!(block_reward_at(u64::MAX), 0);
}

#[test]
fn supply_mint_respects_max_supply() {
    let mut t = SupplyTracker::default();
    assert!(t.can_mint(MAX_SUPPLY));
    assert!(!t.can_mint(MAX_SUPPLY + 1));
    assert!(t.mint(MAX_SUPPLY - 5).is_ok());
    assert_eq!(t.mint(6), Err("Max supply reached"));
    assert_eq!(t.total_minted, MAX_SUPPLY - 5);
    assert!(t.mint(5).is_ok());
    assert_eq!(t.total_minted, MAX_SUPPLY);
    assert!(!t.can_mint(u128::MAX));
}

#[test]
fn circulating_subtracts_burned_and_locked() {
    let mut t = SupplyTracker::default();
    t.total_minted = 1_000;
    t.total_burned = 100;
    t.locked_supply = 50;
    assert_eq!(t.circulating(), 850);
    t.locked_supply = 5_000;
    assert_eq!(t.circulating(), 0);
}

#[test]
fn burn_caps_and_stops() {
    let mut t = SupplyTracker::default();
    assert_eq!(t.burn(0), 0);
    assert_eq!(t.burn(1_000), 1_000);
    assert_eq!(t.total_burned, 1_000);
    assert!(!t.burn_stopped);
    t.total_burned = BURN_CAP - 10;
    assert_eq!(t.burn(25), 10);
    assert_eq!(t.total_burned, BURN_CAP);
    assert!(t.burn_stopped);
    assert!(t.should_stop_burn());
    assert_eq!(t.burn(25), 0);
    assert_eq!(t.total_burned, BURN_CAP);
}

#[test]
fn lock_and_unlock_liquidity_saturate() {
    let mut t = SupplyTracker::default();
    t.lock_liquidity(u128::MAX - 1);
    t.lock_liquidity(10);
    assert_eq!(t.locked_supply, u128::MAX);
    t.unlock_liquidity(u128::MAX - 3);
    assert_eq!(t.locked_supply, 3);
    t.unlock_liquidity(10);
    assert_eq!(t.locked_supply, 0);
}

#[test]
fn auto_lock_at_target_once_for_five_years() {
    let mut t = SupplyTracker::default();
    assert!(!t.should_auto_lock_liquidity(LIQUIDITY_TARGET - 1));
    assert!(t.auto_lock_liquidity_if_needed(LIQUIDITY_TARGET - 1, 1_000).is_none());
    let pos = t.auto_lock_liquidity_if_needed(LIQUIDITY_TARGET, 1_000).unwrap();
    // 5% of 200,000,000 DVC = 10,000,000 DVC
    assert_eq!(pos.amount, 10_000_000_000_000);
    assert_eq!(pos.id, "liq_timelock_0");
    assert_eq!(pos.created_at, 1_000);
    assert_eq!(pos.unlock_at, 1_000 + FIVE_YEARS_SECS);
    assert!(!pos.unlocked);
    assert_eq!(t.locked_supply, 10_000_000_000_000);
    assert!(t.liquidity_auto_locked);
    assert_eq!(t.timelocks.len(), 1);
    assert!(t.auto_lock_liquidity_if_needed(LIQUIDITY_TARGET * 2, 2_000).is_none());
    assert_eq!(t.timelocks.len(), 1);
}

#[test]
fn auto_lock_unlock_time_saturates() {
    let mut t = SupplyTracker::default();
    let pos = t.auto_lock_liquidity_if_needed(LIQUIDITY_TARGET, u64::MAX - 5).unwrap();
    assert_eq!(pos.unlock_at, u64::MAX);
}

#[test]
fn timelocks_unlock_when_matured() {
    let mut t = SupplyTracker::default();
    t.auto_lock_liquidity_if_needed(LIQUIDITY_TARGET, 100).unwrap();
    assert!(t.unlock_matured_timelocks(100 + FIVE_YEARS_SECS - 1).is_empty());
    assert_eq!(t.locked_supply, 10_000_000_000_000);
    let released = t.unlock_matured_timelocks(100 + FIVE_YEARS_SECS);
    assert_eq!(released.len(), 1);
    assert!(released[0].unlocked);
    assert_eq!(released[0].amount, 10_000_000_000_000);
    assert_eq!(t.locked_supply, 0);
    assert!(t.timelocks[0].unlocked);
    // a second pass releases nothing
    assert!(t.unlock_matured_timelocks(u64::MAX).is_empty());
    assert_eq!(t.locked_supply, 0);
}

#[test]
fn liquidity_pool_lock_ids_and_unlock_rules() {
    let mut p = LiquidityPool::default();
    let a = p.lock("alice".to_string(), 500, 10, 100);
    let b = p.lock("bob".to_string(), 700, 20, 5);
    assert_eq!(a, "lock_0");
    assert_eq!(b, "lock_1");
    assert_eq!(p.get_locks().len(), 2);
    assert_eq!(p.get_locks()[0].unlock_block, 110);
    assert_eq!(p.try_unlock("lock_9", 1_000), Err("Lock not found"));
    assert_eq!(p.try_unlock("lock_0", 109), Err("Still locked"));
    assert_eq!(p.try_unlock("lock_0", 110), Ok(500));
    assert_eq!(p.try_unlock("lock_0", 200), Err("Already unlocked"));
    assert!(p.get_locks()[0].unlocked);
    assert!(!p.get_locks()[1].unlocked);
    assert_eq!(p.try_unlock("lock_1", 25), Ok(700));
}

fn token(id: &str, collection: &str, owner: &str) -> NftToken {
    NftToken {
        token_id: id.to_string(),
        collection: collection.to_string(),
        owner: owner.to_string(),
        creator: owner.to_string(),
        metadata: NftMetadata {
            name: format!("Devil #{}", id),
            description: "A devil".to_string(),
            image_cid: "dvl1abc".to_string(),
            attributes: vec![NftAttribute { trait_type: "horns".to_string(), value: "2".to_string() }],
            royalty_pct: 5,
        },
        minted_at: 1,
        tx_hash: "0xabc".to_string(),
    }
}

#[test]
fn nft_mint_transfer_and_queries() {
    let mut r = NftRegistry::default();
    assert!(r.mint(token("1", "devils", "alice")).is_ok());
    assert!(r.mint(token("2", "devils", "bob")).is_ok());
    assert!(r.mint(token("3", "angels", "alice")).is_ok());
    assert_eq!(r.mint(token("1", "angels", "carol")), Err("Token ID already exists"));
    assert_eq!(r.get("1").unwrap().owner, "alice");
    assert_eq!(r.get("1").unwrap().metadata.attributes[0].trait_type, "horns");
    assert!(r.get("9").is_none());
    let alices: Vec<String> = r.tokens_of("alice").iter().map(|t| t.token_id.clone()).collect();
    assert_eq!(alices, vec!["1".to_string(), "3".to_string()]);
    let devils: Vec<String> = r.collection("devils").iter().map(|t| t.token_id.clone()).collect();
    assert_eq!(devils, vec!["1".to_string(), "2".to_string()]);
    assert!(r.collection("none").is_empty());
    assert_eq!(r.transfer("9", "alice", "bob"), Err("Token not found"));
    assert_eq!(r.transfer("1", "bob", "carol"), Err("Not owner"));
    assert!(r.transfer("1", "alice", "carol").is_ok());
    assert_eq!(r.get("1").unwrap().owner, "carol");
    assert_eq!(r.tokens_of("alice").len(), 1);
    assert_eq!(r.tokens_of("carol").len(), 1);
    assert_eq!(r.collection("devils")[0].owner, "carol");
}

#[test]
fn reward_never_rises() {
    let heights = [0u64, 1, 2_099_999, 2_100_000, 4_200_001, 50_000_000, 134_400_000, 200_000_000, u64::MAX];
    for w in heights.windows(2) {
        assert!(block_reward_at(w[1]) <= block_reward_at(w[0]));
    }
    assert_eq!(block_reward_at(u64::MAX), 0);
}
