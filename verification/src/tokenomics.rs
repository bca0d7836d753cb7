//! DevilChain tokenomics: gas by transaction type, the fee split before and
//! after the burn cap, the halving block reward, the supply tracker with its
//! burn cap and liquidity timelocks, liquidity locks and the NFT registry.
//! All amounts are in micro-DVC (1 DVC = 1_000_000 µDVC).

use vstd::prelude::*;
use vstd::bits::lemma_u128_shr_is_div;
use vstd::arithmetic::power2::{pow2, lemma_pow2_pos, lemma_pow2_unfold, lemma2_to64, lemma_pow2_strictly_increases};
use vstd::arithmetic::div_mod::{lemma_div_denominator, lemma_div_is_ordered_by_denominator};
use crate::text::{decimal, push_decimal, str_eq};
use crate::strmap::{StrMap, lookup, map_of, has_key, lemma_lookup_at};

verus! {

pub const DECIMALS: u64 = 1_000_000;
pub const MAX_SUPPLY: u128 = 1_000_000_000_000_000u128;
pub const BLOCK_REWARD: u128 = 50_000_000u128;
pub const HALVING_INTERVAL: u64 = 2_100_000;
pub const MIN_GAS_FEE: u128 = 10_000;

pub const GAS_STANDARD_BP: u128 = 30;
pub const GAS_DEX_BP: u128 = 150;
pub const GAS_NFT_BP: u128 = 200;
pub const GAS_CONTRACT_BP: u128 = 500;

pub const BURN_CAP: u128 = 200_000_000_000_000u128;
pub const LIQUIDITY_TARGET: u128 = 200_000_000_000_000u128;
/// 5% of the liquidity balance, in basis points.
pub const LIQUIDITY_AUTO_LOCK_BP: u128 = 500;
pub const FIVE_YEARS_SECS: u64 = 157_680_000;

pub const FEE_MINER_PCT: u128 = 55;
pub const FEE_DEV_PCT: u128 = 18;
pub const FEE_BURN_PCT: u128 = 10;
pub const FEE_LIQUIDITY_PCT: u128 = 10;
pub const FEE_MARKETING_PCT: u128 = 7;

pub const FEE_POST_BURN_MINER_PCT: u128 = 55;
pub const FEE_POST_BURN_DEV_PCT: u128 = 23;
pub const FEE_POST_BURN_BURN_PCT: u128 = 0;
pub const FEE_POST_BURN_LIQUIDITY_PCT: u128 = 15;
pub const FEE_POST_BURN_MARKETING_PCT: u128 = 7;

pub const DEV_WALLET: &'static str = "db1xdev_nexuzy_lab_david0154_00000000";
pub const MINING_POOL_WALLET: &'static str = "db1xmining_pool_devilchain_000000000";
pub const BURN_ADDRESS: &'static str = "db1x000000000000000000000000000burn";
pub const LIQUIDITY_LOCK_VAULT: &'static str = "db1xliquidity_lock_vault_dao_00000000";
pub const MARKETING_WALLET: &'static str = "db1xmarketing_fund_devilchain_000000";

// ── Gas ──────────────────────────────────────────────────────────────────────

#[derive(Debug, Clone, Copy, PartialEq, Eq, Structural)]
pub enum TxType {
    Transfer,
    DexSwap,
    NftSale,
    Contract,
}

impl Default for TxType {
    fn default() -> (r: Self)
        ensures
            r == TxType::Transfer,
    {
        TxType::Transfer
    }
}

/// Gas rate of a transaction type, in basis points of the amount.
pub open spec fn gas_bp(tx_type: TxType) -> u128 {
    match tx_type {
        TxType::Transfer => GAS_STANDARD_BP,
        TxType::DexSwap => GAS_DEX_BP,
        TxType::NftSale => GAS_NFT_BP,
        TxType::Contract => GAS_CONTRACT_BP,
    }
}

/// Gas owed on `amount`: the type's rate, and never below `MIN_GAS_FEE`.
pub open spec fn gas_spec(amount: int, tx_type: TxType) -> int {
    let g = amount * gas_bp(tx_type) / 10_000;
    if g >= MIN_GAS_FEE { g } else { MIN_GAS_FEE as int }
}

pub fn compute_gas(amount: u128, tx_type: TxType) -> (gas: u128)
    requires
        amount * gas_bp(tx_type) <= u128::MAX,
    ensures
        gas == gas_spec(amount as int, tx_type),
{
    let bp = match tx_type {
        TxType::Transfer => GAS_STANDARD_BP,
        TxType::DexSwap => GAS_DEX_BP,
        TxType::NftSale => GAS_NFT_BP,
        TxType::Contract => GAS_CONTRACT_BP,
    };
    let g = amount * bp / 10_000;
    if g >= MIN_GAS_FEE { g } else { MIN_GAS_FEE }
}

// ── Fee split ────────────────────────────────────────────────────────────────

#[derive(Debug, Clone)]
pub struct FeeSplit {
    pub miner: u128,
    pub dev: u128,
    pub burn: u128,
    pub liquidity: u128,
    pub marketing: u128,
}

/// The split of `fee`: miner, dev, burn and liquidity take their percentage
/// (rounded down) of the schedule in force; marketing takes the rest.
pub open spec fn split_spec(fee: int, burn_stopped: bool) -> (int, int, int, int, int) {
    if burn_stopped {
        let miner = fee * FEE_POST_BURN_MINER_PCT / 100;
        let dev = fee * FEE_POST_BURN_DEV_PCT / 100;
        let liquidity = fee * FEE_POST_BURN_LIQUIDITY_PCT / 100;
        (miner, dev, 0, liquidity, fee - (miner + dev + liquidity))
    } else {
        let miner = fee * FEE_MINER_PCT / 100;
        let dev = fee * FEE_DEV_PCT / 100;
        let burn = fee * FEE_BURN_PCT / 100;
        let liquidity = fee * FEE_LIQUIDITY_PCT / 100;
        (miner, dev, burn, liquidity, fee - (miner + dev + burn + liquidity))
    }
}

impl FeeSplit {
    pub open spec fn parts(&self) -> (int, int, int, int, int) {
        (self.miner as int, self.dev as int, self.burn as int, self.liquidity as int, self.marketing as int)
    }

    pub open spec fn total(&self) -> int {
        self.miner + self.dev + self.burn + self.liquidity + self.marketing
    }
}

pub fn split_fee_with_state(fee: u128, burn_stopped: bool) -> (s: FeeSplit)
    requires
        fee * 55 <= u128::MAX,
    ensures
        s.parts() == split_spec(fee as int, burn_stopped),
        s.total() == fee,
{
    if burn_stopped {
        let miner = fee * FEE_POST_BURN_MINER_PCT / 100;
        let dev = fee * FEE_POST_BURN_DEV_PCT / 100;
        let burn: u128 = 0;
        let liquidity = fee * FEE_POST_BURN_LIQUIDITY_PCT / 100;
        let marketing = fee.saturating_sub(miner + dev + burn + liquidity);
        FeeSplit { miner, dev, burn, liquidity, marketing }
    } else {
        let miner = fee * FEE_MINER_PCT / 100;
        let dev = fee * FEE_DEV_PCT / 100;
        let burn = fee * FEE_BURN_PCT / 100;
        let liquidity = fee * FEE_LIQUIDITY_PCT / 100;
        let marketing = fee.saturating_sub(miner + dev + burn + liquidity);
        FeeSplit { miner, dev, burn, liquidity, marketing }
    }
}

pub fn split_fee(fee: u128) -> (s: FeeSplit)
    requires
        fee * 55 <= u128::MAX,
    ensures
        s.parts() == split_spec(fee as int, false),
        s.total() == fee,
{
    split_fee_with_state(fee, false)
}

// ── Block reward ─────────────────────────────────────────────────────────────

/// Block reward at `height`: `BLOCK_REWARD` halved once per completed
/// `HALVING_INTERVAL`, and nothing after 64 halvings.
pub open spec fn reward_spec(height: int) -> int {
    let halvings = height / HALVING_INTERVAL as int;
    if halvings >= 64 { 0 } else { BLOCK_REWARD as int / pow2(halvings as nat) as int }
}

pub fn block_reward_at(height: u64) -> (r: u128)
    ensures
        r == reward_spec(height as int),
{
    let halvings = height / HALVING_INTERVAL;
    if halvings >= 64 {
        return 0;
    }
    let h: u32 = halvings as u32;
    proof {
        lemma_u128_shr_is_div(BLOCK_REWARD, h as u128);
    }
    BLOCK_REWARD >> h
}

// ── Supply tracker ───────────────────────────────────────────────────────────

#[derive(Debug, Clone)]
pub struct TimelockPosition {
    pub id: String,
    pub amount: u128,
    pub created_at: u64,
    pub unlock_at: u64,
    pub unlocked: bool,
}

impl TimelockPosition {
    /// A field-by-field copy.
    pub fn copy(&self) -> (r: Self)
        ensures
            r == *self,
    {
        TimelockPosition {
            id: self.id.clone(),
            amount: self.amount,
            created_at: self.created_at,
            unlock_at: self.unlock_at,
            unlocked: self.unlocked,
        }
    }
}

/// `a - b`, or 0 where that is negative.
pub open spec fn sat_sub(a: int, b: int) -> int {
    if a >= b { a - b } else { 0 }
}

/// `a + b`, or `u128::MAX` where that is larger.
pub open spec fn sat_add_u128(a: int, b: int) -> int {
    if a + b <= u128::MAX { a + b } else { u128::MAX as int }
}

pub open spec fn min_int(a: int, b: int) -> int {
    if a <= b { a } else { b }
}

/// A timelock that is still locked and whose unlock time has come.
pub open spec fn matured(t: TimelockPosition, now: u64) -> bool {
    !t.unlocked && now >= t.unlock_at
}

/// The same timelock, marked unlocked.
pub open spec fn with_unlocked(t: TimelockPosition) -> TimelockPosition {
    TimelockPosition {
        id: t.id,
        amount: t.amount,
        created_at: t.created_at,
        unlock_at: t.unlock_at,
        unlocked: true,
    }
}

/// The timelocks of `s` that mature at `now`, in order, marked unlocked.
pub open spec fn released(s: Seq<TimelockPosition>, now: u64) -> Seq<TimelockPosition>
    decreases s.len(),
{
    if s.len() == 0 {
        Seq::empty()
    } else {
        let r = released(s.drop_last(), now);
        if matured(s.last(), now) { r.push(with_unlocked(s.last())) } else { r }
    }
}

/// Total amount of the timelocks of `s` that mature at `now`.
pub open spec fn released_total(s: Seq<TimelockPosition>, now: u64) -> int
    decreases s.len(),
{
    if s.len() == 0 {
        0
    } else {
        released_total(s.drop_last(), now) + if matured(s.last(), now) { s.last().amount as int } else { 0 }
    }
}

/// The timelocks after an unlock pass at `now`.
pub open spec fn after_unlock(s: Seq<TimelockPosition>, now: u64) -> Seq<TimelockPosition> {
    Seq::new(s.len(), |i: int| if matured(s[i], now) { with_unlocked(s[i]) } else { s[i] })
}

/// The identifier of the `n`-th liquidity timelock.
pub open spec fn timelock_id(n: nat) -> Seq<char> {
    "liq_timelock_"@ + decimal(n)
}

#[derive(Debug)]
pub struct SupplyTracker {
    pub total_minted: u128,
    pub total_burned: u128,
    pub locked_supply: u128,
    pub burn_stopped: bool,
    pub liquidity_auto_locked: bool,
    pub timelocks: Vec<TimelockPosition>,
}

impl Default for SupplyTracker {
    fn default() -> (r: Self)
        ensures
            r.total_minted == 0,
            r.total_burned == 0,
            r.locked_supply == 0,
            !r.burn_stopped,
            !r.liquidity_auto_locked,
            r.timelocks@ == Seq::<TimelockPosition>::empty(),
    {
        SupplyTracker {
            total_minted: 0,
            total_burned: 0,
            locked_supply: 0,
            burn_stopped: false,
            liquidity_auto_locked: false,
            timelocks: Vec::new(),
        }
    }
}

impl SupplyTracker {
    /// Minted supply less what was burned and what is locked, never negative.
    pub open spec fn circulating_spec(&self) -> int {
        sat_sub(sat_sub(self.total_minted as int, self.total_burned as int), self.locked_supply as int)
    }

    pub open spec fn can_mint_spec(&self, amount: int) -> bool {
        self.total_minted + amount <= MAX_SUPPLY
    }

    pub open spec fn should_stop_burn_spec(&self) -> bool {
        self.total_burned >= BURN_CAP || self.burn_stopped
    }

    pub open spec fn should_auto_lock_spec(&self, liquidity_balance: int) -> bool {
        !self.liquidity_auto_locked && liquidity_balance >= LIQUIDITY_TARGET
    }

    /// What a burn of `amount` takes: nothing once burning stopped or for a
    /// zero amount, else as much of `amount` as the cap leaves.
    pub open spec fn burn_take(&self, amount: int) -> int {
        if self.burn_stopped || amount == 0 {
            0
        } else {
            min_int(amount, sat_sub(BURN_CAP as int, self.total_burned as int))
        }
    }

    /// The tracker after a burn of `amount`.
    pub open spec fn after_burn(&self, amount: int) -> SupplyTracker {
        let total = (self.total_burned + self.burn_take(amount)) as u128;
        SupplyTracker {
            total_burned: total,
            burn_stopped: self.burn_stopped || (amount != 0 && total >= BURN_CAP),
            ..*self
        }
    }

    /// The tracker after a mint of `amount` (unchanged when refused).
    pub open spec fn after_mint(&self, amount: int) -> SupplyTracker {
        if self.can_mint_spec(amount) {
            SupplyTracker { total_minted: (self.total_minted + amount) as u128, ..*self }
        } else {
            *self
        }
    }

    pub fn circulating(&self) -> (r: u128)
        ensures
            r == self.circulating_spec(),
    {
        self.total_minted.saturating_sub(self.total_burned).saturating_sub(self.locked_supply)
    }

    pub fn can_mint(&self, amount: u128) -> (r: bool)
        ensures
            r == self.can_mint_spec(amount as int),
    {
        self.total_minted.saturating_add(amount) <= MAX_SUPPLY
    }

    pub fn mint(&mut self, amount: u128) -> (r: Result<(), &'static str>)
        ensures
            old(self).can_mint_spec(amount as int) ==> r is Ok && final(self).total_minted == old(self).total_minted + amount,
            !old(self).can_mint_spec(amount as int) ==> r == Err::<(), &'static str>("Max supply reached") && final(self).total_minted == old(self).total_minted,
            *final(self) == old(self).after_mint(amount as int),
            final(self).total_burned == old(self).total_burned,
            final(self).locked_supply == old(self).locked_supply,
            final(self).burn_stopped == old(self).burn_stopped,
            final(self).liquidity_auto_locked == old(self).liquidity_auto_locked,
            final(self).timelocks@ == old(self).timelocks@,
    {
        if !self.can_mint(amount) {
            return Err("Max supply reached");
        }
        self.total_minted = self.total_minted + amount;
        Ok(())
    }

    pub fn burn(&mut self, amount: u128) -> (actual: u128)
        ensures
            actual == old(self).burn_take(amount as int),
            *final(self) == old(self).after_burn(amount as int),
            final(self).total_burned == old(self).total_burned + actual,
            final(self).burn_stopped == (old(self).burn_stopped || (amount != 0 && final(self).total_burned >= BURN_CAP)),
            final(self).total_minted == old(self).total_minted,
            final(self).locked_supply == old(self).locked_supply,
            final(self).liquidity_auto_locked == old(self).liquidity_auto_locked,
            final(self).timelocks@ == old(self).timelocks@,
    {
        if self.burn_stopped || amount == 0 {
            return 0;
        }
        let remaining = BURN_CAP.saturating_sub(self.total_burned);
        let actual = if amount <= remaining { amount } else { remaining };
        self.total_burned = self.total_burned.saturating_add(actual);
        if self.total_burned >= BURN_CAP {
            self.burn_stopped = true;
        }
        actual
    }

    pub fn lock_liquidity(&mut self, amount: u128)
        ensures
            final(self).locked_supply == sat_add_u128(old(self).locked_supply as int, amount as int),
            final(self).total_minted == old(self).total_minted,
            final(self).total_burned == old(self).total_burned,
            final(self).burn_stopped == old(self).burn_stopped,
            final(self).liquidity_auto_locked == old(self).liquidity_auto_locked,
            final(self).timelocks@ == old(self).timelocks@,
    {
        self.locked_supply = self.locked_supply.saturating_add(amount);
    }

    pub fn unlock_liquidity(&mut self, amount: u128)
        ensures
            final(self).locked_supply == sat_sub(old(self).locked_supply as int, amount as int),
            final(self).total_minted == old(self).total_minted,
            final(self).total_burned == old(self).total_burned,
            final(self).burn_stopped == old(self).burn_stopped,
            final(self).liquidity_auto_locked == old(self).liquidity_auto_locked,
            final(self).timelocks@ == old(self).timelocks@,
    {
        self.locked_supply = self.locked_supply.saturating_sub(amount);
    }

    pub fn should_stop_burn(&self) -> (r: bool)
        ensures
            r == self.should_stop_burn_spec(),
    {
        self.total_burned >= BURN_CAP || self.burn_stopped
    }

    pub fn should_auto_lock_liquidity(&self, liquidity_balance: u128) -> (r: bool)
        ensures
            r == self.should_auto_lock_spec(liquidity_balance as int),
    {
        !self.liquidity_auto_locked && liquidity_balance >= LIQUIDITY_TARGET
    }

    /// Once the liquidity balance reaches `LIQUIDITY_TARGET`, locks 5% of it
    /// for five years, the first time only.
    pub fn auto_lock_liquidity_if_needed(&mut self, liquidity_balance: u128, now_secs: u64) -> (r: Option<TimelockPosition>)
        requires
            old(self).should_auto_lock_spec(liquidity_balance as int) ==> liquidity_balance * LIQUIDITY_AUTO_LOCK_BP <= u128::MAX,
        ensures
            !old(self).should_auto_lock_spec(liquidity_balance as int) ==> r is None && *final(self) == *old(self),
            old(self).should_auto_lock_spec(liquidity_balance as int) ==> {
                let amount = liquidity_balance * LIQUIDITY_AUTO_LOCK_BP / 10_000;
                let pos = TimelockPosition {
                    id: r->0.id,
                    amount: amount as u128,
                    created_at: now_secs,
                    unlock_at: if now_secs + FIVE_YEARS_SECS <= u64::MAX { (now_secs + FIVE_YEARS_SECS) as u64 } else { u64::MAX },
                    unlocked: false,
                };
                &&& r is Some
                &&& r->0 == pos
                &&& pos.id@ == timelock_id(old(self).timelocks@.len())
                &&& final(self).locked_supply == sat_add_u128(old(self).locked_supply as int, amount)
                &&& final(self).liquidity_auto_locked
                &&& final(self).timelocks@ == old(self).timelocks@.push(pos)
                &&& final(self).total_minted == old(self).total_minted
                &&& final(self).total_burned == old(self).total_burned
                &&& final(self).burn_stopped == old(self).burn_stopped
            },
    {
        if !self.should_auto_lock_liquidity(liquidity_balance) {
            return None;
        }
        let amount = liquidity_balance * LIQUIDITY_AUTO_LOCK_BP / 10_000;
        if amount == 0 {
            return None;
        }
        self.locked_supply = self.locked_supply.saturating_add(amount);
        self.liquidity_auto_locked = true;
        let mut id = String::new();
        id.append("liq_timelock_");
        push_decimal(&mut id, self.timelocks.len() as u128);
        let pos = TimelockPosition {
            id,
            amount,
            created_at: now_secs,
            unlock_at: now_secs.saturating_add(FIVE_YEARS_SECS),
            unlocked: false,
        };
        self.timelocks.push(pos.copy());
        Some(pos)
    }

    /// Releases every timelock whose unlock time has come, returns them, and
    /// takes their amounts off the locked supply.
    pub fn unlock_matured_timelocks(&mut self, now_secs: u64) -> (r: Vec<TimelockPosition>)
        ensures
            r@ == released(old(self).timelocks@, now_secs),
            final(self).timelocks@ == after_unlock(old(self).timelocks@, now_secs),
            final(self).locked_supply == sat_sub(old(self).locked_supply as int, released_total(old(self).timelocks@, now_secs)),
            final(self).total_minted == old(self).total_minted,
            final(self).total_burned == old(self).total_burned,
            final(self).burn_stopped == old(self).burn_stopped,
            final(self).liquidity_auto_locked == old(self).liquidity_auto_locked,
    {
        let ghost orig = self.timelocks@;
        let ghost orig_locked = self.locked_supply;
        let mut unlocked: Vec<TimelockPosition> = Vec::new();
        let n = self.timelocks.len();
        let mut i: usize = 0;
        while i < n
            invariant
                n == orig.len(),
                i <= n,
                self.timelocks@.len() == n,
                forall|k: int| 0 <= k < i ==> self.timelocks@[k] == after_unlock(orig, now_secs)[k],
                forall|k: int| i <= k < n ==> self.timelocks@[k] == orig[k],
                unlocked@ == released(orig.take(i as int), now_secs),
                self.locked_supply == sat_sub(orig_locked as int, released_total(orig.take(i as int), now_secs)),
                self.total_minted == old(self).total_minted,
                self.total_burned == old(self).total_burned,
                self.burn_stopped == old(self).burn_stopped,
                self.liquidity_auto_locked == old(self).liquidity_auto_locked,
            decreases n - i,
        {
            assert(orig.take(i + 1).drop_last() =~= orig.take(i as int));
            assert(orig.take(i + 1).last() == orig[i as int]);
            let tl = self.timelocks[i].copy();
            if !tl.unlocked && now_secs >= tl.unlock_at {
                let mut updated = tl.copy();
                updated.unlocked = true;
                self.locked_supply = self.locked_supply.saturating_sub(tl.amount);
                unlocked.push(updated.copy());
                self.timelocks.set(i, updated);
            }
            i = i + 1;
        }
        assert(orig.take(n as int) =~= orig);
        assert(self.timelocks@ =~= after_unlock(orig, now_secs));
        unlocked
    }
}

// ── Liquidity locks ──────────────────────────────────────────────────────────

#[derive(Debug, Clone)]
pub struct LiquidityLock {
    pub id: String,
    pub locker: String,
    pub amount: u128,
    pub unlock_block: u64,
    pub unlocked: bool,
}

impl LiquidityLock {
    /// A field-by-field copy.
    pub fn copy(&self) -> (r: Self)
        ensures
            r == *self,
    {
        LiquidityLock {
            id: self.id.clone(),
            locker: self.locker.clone(),
            amount: self.amount,
            unlock_block: self.unlock_block,
            unlocked: self.unlocked,
        }
    }
}

/// The identifier of the `n`-th liquidity lock.
pub open spec fn lock_id(n: nat) -> Seq<char> {
    "lock_"@ + decimal(n)
}

/// `i` is the first position of `locks` whose identifier is `id`.
pub open spec fn first_lock_with_id(locks: Seq<LiquidityLock>, id: Seq<char>, i: int) -> bool {
    &&& 0 <= i < locks.len()
    &&& locks[i].id@ == id
    &&& forall|j: int| 0 <= j < i ==> locks[j].id@ != id
}

/// Releasing lock `i` at `current_block`: refused when already released or
/// not yet due, else the lock is marked released and its amount returned.
pub open spec fn unlock_outcome(locks: Seq<LiquidityLock>, i: int, current_block: u64) -> (Seq<LiquidityLock>, Result<u128, &'static str>) {
    let l = locks[i];
    if l.unlocked {
        (locks, Err("Already unlocked"))
    } else if current_block < l.unlock_block {
        (locks, Err("Still locked"))
    } else {
        (locks.update(i, LiquidityLock { unlocked: true, ..l }), Ok(l.amount))
    }
}

#[derive(Debug)]
pub struct LiquidityPool {
    locks: Vec<LiquidityLock>,
    next_id: u64,
}

impl View for LiquidityPool {
    type V = Seq<LiquidityLock>;

    closed spec fn view(&self) -> Seq<LiquidityLock> {
        self.locks@
    }
}

impl Default for LiquidityPool {
    fn default() -> (r: Self)
        ensures
            r.wf(),
            r@ == Seq::<LiquidityLock>::empty(),
    {
        LiquidityPool { locks: Vec::new(), next_id: 0 }
    }
}

impl LiquidityPool {
    /// The `n`-th lock carries the identifier `lock_n`.
    pub closed spec fn wf(&self) -> bool {
        &&& self.next_id as int == self.locks@.len()
        &&& forall|i: int| 0 <= i < self.locks@.len() ==> (#[trigger] self.locks@[i]).id@ == lock_id(i as nat)
    }

    /// The identifier of every lock is `lock_` followed by its position.
    pub proof fn lemma_ids(&self)
        requires
            self.wf(),
        ensures
            forall|i: int| 0 <= i < self@.len() ==> (#[trigger] self@[i]).id@ == lock_id(i as nat),
    {
    }

    /// Records a lock of `amount` by `locker` until `current_block + lock_blocks`
    /// and returns its identifier.
    pub fn lock(&mut self, locker: String, amount: u128, current_block: u64, lock_blocks: u64) -> (id: String)
        requires
            old(self).wf(),
            old(self)@.len() < u64::MAX,
            current_block + lock_blocks <= u64::MAX,
        ensures
            final(self).wf(),
            id@ == lock_id(old(self)@.len()),
            final(self)@ == old(self)@.push(LiquidityLock {
                id: id,
                locker: locker,
                amount: amount,
                unlock_block: (current_block + lock_blocks) as u64,
                unlocked: false,
            }),
    {
        let mut id = String::new();
        id.append("lock_");
        push_decimal(&mut id, self.next_id as u128);
        self.next_id = self.next_id + 1;
        self.locks.push(LiquidityLock {
            id: id.clone(),
            locker,
            amount,
            unlock_block: current_block + lock_blocks,
            unlocked: false,
        });
        id
    }

    /// Releases the lock `id` once `current_block` reaches its unlock block.
    pub fn try_unlock(&mut self, id: &str, current_block: u64) -> (r: Result<u128, &'static str>)
        requires
            old(self).wf(),
        ensures
            final(self).wf(),
            (forall|i: int| 0 <= i < old(self)@.len() ==> old(self)@[i].id@ != id@) ==> {
                &&& r == Err::<u128, &'static str>("Lock not found")
                &&& final(self)@ == old(self)@
            },
            forall|i: int| first_lock_with_id(old(self)@, id@, i) ==> (final(self)@, r) == unlock_outcome(old(self)@, i, current_block),
    {
        let n = self.locks.len();
        let mut i: usize = 0;
        while i < n
            invariant
                n == self.locks@.len(),
                i <= n,
                self.locks@ == old(self).locks@,
                self.next_id == old(self).next_id,
                old(self).wf(),
                forall|j: int| 0 <= j < i ==> self.locks@[j].id@ != id@,
            decreases n - i,
        {
            if str_eq(self.locks[i].id.as_str(), id) {
                let l = self.locks[i].copy();
                assert(self.locks@[i as int].id@ == id@);
                assert(first_lock_with_id(old(self)@, id@, i as int));
                if l.unlocked {
                    return Err("Already unlocked");
                }
                if current_block < l.unlock_block {
                    return Err("Still locked");
                }
                let amount = l.amount;
                let mut updated = l;
                updated.unlocked = true;
                self.locks.set(i, updated);
                return Ok(amount);
            }
            i = i + 1;
        }
        Err("Lock not found")
    }

    pub fn get_locks(&self) -> (r: &[LiquidityLock])
        ensures
            r@ == self@,
    {
        self.locks.as_slice()
    }
}

// ── NFTs ─────────────────────────────────────────────────────────────────────

#[derive(Debug, Clone)]
pub struct NftToken {
    pub token_id: String,
    pub collection: String,
    pub owner: String,
    pub creator: String,
    pub metadata: NftMetadata,
    pub minted_at: u64,
    pub tx_hash: String,
}

#[derive(Debug, Clone)]
pub struct NftMetadata {
    pub name: String,
    pub description: String,
    pub image_cid: String,
    pub attributes: Vec<NftAttribute>,
    pub royalty_pct: u8,
}

#[derive(Debug, Clone)]
pub struct NftAttribute {
    pub trait_type: String,
    pub value: String,
}

impl NftAttribute {
    pub fn copy(&self) -> (r: Self)
        ensures
            r == *self,
    {
        NftAttribute { trait_type: self.trait_type.clone(), value: self.value.clone() }
    }
}

impl NftMetadata {
    pub fn copy(&self) -> (r: Self)
        ensures
            r.name == self.name,
            r.description == self.description,
            r.image_cid == self.image_cid,
            r.attributes@ == self.attributes@,
            r.royalty_pct == self.royalty_pct,
    {
        let mut attributes: Vec<NftAttribute> = Vec::new();
        let mut i: usize = 0;
        while i < self.attributes.len()
            invariant
                i <= self.attributes@.len(),
                attributes@ == self.attributes@.subrange(0, i as int),
            decreases self.attributes@.len() - i,
        {
            attributes.push(self.attributes[i].copy());
            i = i + 1;
            assert(attributes@ =~= self.attributes@.subrange(0, i as int));
        }
        assert(attributes@ =~= self.attributes@);
        NftMetadata {
            name: self.name.clone(),
            description: self.description.clone(),
            image_cid: self.image_cid.clone(),
            attributes,
            royalty_pct: self.royalty_pct,
        }
    }
}

/// Two tokens agree on every field, metadata compared by its contents.
pub open spec fn same_token(a: NftToken, b: NftToken) -> bool {
    &&& a.token_id == b.token_id
    &&& a.collection == b.collection
    &&& a.owner == b.owner
    &&& a.creator == b.creator
    &&& a.metadata.name == b.metadata.name
    &&& a.metadata.description == b.metadata.description
    &&& a.metadata.image_cid == b.metadata.image_cid
    &&& a.metadata.attributes@ == b.metadata.attributes@
    &&& a.metadata.royalty_pct == b.metadata.royalty_pct
    &&& a.minted_at == b.minted_at
    &&& a.tx_hash == b.tx_hash
}

/// The token with its owner replaced (every other field kept, up to
/// `same_token`).
pub open spec fn owned_by_other(a: NftToken, b: NftToken, owner: Seq<char>) -> bool {
    &&& b.owner@ == owner
    &&& a.token_id == b.token_id
    &&& a.collection == b.collection
    &&& a.creator == b.creator
    &&& a.metadata.name == b.metadata.name
    &&& a.metadata.description == b.metadata.description
    &&& a.metadata.image_cid == b.metadata.image_cid
    &&& a.metadata.attributes@ == b.metadata.attributes@
    &&& a.metadata.royalty_pct == b.metadata.royalty_pct
    &&& a.minted_at == b.minted_at
    &&& a.tx_hash == b.tx_hash
}

impl NftToken {
    pub fn copy(&self) -> (r: Self)
        ensures
            same_token(r, *self),
    {
        NftToken {
            token_id: self.token_id.clone(),
            collection: self.collection.clone(),
            owner: self.owner.clone(),
            creator: self.creator.clone(),
            metadata: self.metadata.copy(),
            minted_at: self.minted_at,
            tx_hash: self.tx_hash.clone(),
        }
    }
}

/// The tokens of `s` held by `owner`, in entry order.
pub open spec fn tokens_owned(s: Seq<(Seq<char>, NftToken)>, owner: Seq<char>) -> Seq<NftToken>
    decreases s.len(),
{
    if s.len() == 0 {
        Seq::empty()
    } else {
        let r = tokens_owned(s.drop_last(), owner);
        if s.last().1.owner@ == owner { r.push(s.last().1) } else { r }
    }
}

/// The tokens found under the identifiers `ids`, in order, skipping any
/// identifier with no token.
pub open spec fn tokens_listed(s: Seq<(Seq<char>, NftToken)>, ids: Seq<String>) -> Seq<NftToken>
    decreases ids.len(),
{
    if ids.len() == 0 {
        Seq::empty()
    } else {
        let r = tokens_listed(s, ids.drop_last());
        match lookup(s, ids.last()@) {
            Some(t) => r.push(t),
            None => r,
        }
    }
}

#[derive(Debug)]
pub struct NftRegistry {
    tokens: StrMap<NftToken>,
    collections: StrMap<Vec<String>>,
}

impl Default for NftRegistry {
    fn default() -> (r: Self)
        ensures
            r.wf(),
            r.tokens_view() == Seq::<(Seq<char>, NftToken)>::empty(),
            r.collections_view() == Seq::<(Seq<char>, Vec<String>)>::empty(),
    {
        NftRegistry { tokens: StrMap::new(), collections: StrMap::new() }
    }
}

impl NftRegistry {
    /// The tokens, keyed by token id, in the order they were minted.
    pub closed spec fn tokens_view(&self) -> Seq<(Seq<char>, NftToken)> {
        self.tokens@
    }

    /// Each collection with the ids minted into it, in mint order.
    pub closed spec fn collections_view(&self) -> Seq<(Seq<char>, Vec<String>)> {
        self.collections@
    }

    /// Keys are distinct and every token is stored under its own id.
    pub closed spec fn wf(&self) -> bool {
        &&& self.tokens.wf()
        &&& self.collections.wf()
        &&& forall|i: int| 0 <= i < self.tokens@.len() ==> (#[trigger] self.tokens@[i]).1.token_id@ == self.tokens@[i].0
    }

    /// No two tokens share an id, each token sits under its own id, and each
    /// collection is listed once.
    pub proof fn law_one_token_per_id(&self)
        requires
            self.wf(),
        ensures
            crate::strmap::keys_distinct(self.tokens_view()),
            crate::strmap::keys_distinct(self.collections_view()),
            forall|i: int| 0 <= i < self.tokens_view().len() ==> (#[trigger] self.tokens_view()[i]).1.token_id@ == self.tokens_view()[i].0,
    {
    }

    /// Adds `token` under its id and lists it in its collection; refused
    /// when the id is taken.
    pub fn mint(&mut self, token: NftToken) -> (r: Result<(), &'static str>)
        requires
            old(self).wf(),
        ensures
            final(self).wf(),
            has_key(old(self).tokens_view(), token.token_id@) ==> {
                &&& r == Err::<(), &'static str>("Token ID already exists")
                &&& final(self).tokens_view() == old(self).tokens_view()
                &&& final(self).collections_view() == old(self).collections_view()
            },
            !has_key(old(self).tokens_view(), token.token_id@) ==> {
                &&& r is Ok
                &&& final(self).tokens_view() == old(self).tokens_view().push((token.token_id@, token))
                &&& map_of(final(self).tokens_view()) == map_of(old(self).tokens_view()).insert(token.token_id@, token)
                &&& forall|c: Seq<char>| #[trigger] lookup(final(self).collections_view(), c) matches Some(ids) ==> ids@ == (
                    if c == token.collection@ {
                        match lookup(old(self).collections_view(), c) {
                            Some(old_ids) => old_ids@.push(token.token_id),
                            None => seq![token.token_id],
                        }
                    } else {
                        lookup(old(self).collections_view(), c)->0@
                    })
                &&& forall|c: Seq<char>| #[trigger] lookup(final(self).collections_view(), c) is Some == (
                    c == token.collection@ || lookup(old(self).collections_view(), c) is Some)
            },
    {
        if self.tokens.contains_key(token.token_id.as_str()) {
            return Err("Token ID already exists");
        }
        let ghost old_cols = self.collections@;
        let ghost cname = token.collection@;
        let ghost tid = token.token_id;
        match self.collections.find(token.collection.as_str()) {
            Some(i) => {
                let existing = self.collections.value_at(i);
                let mut ids: Vec<String> = Vec::new();
                let mut j: usize = 0;
                while j < existing.len()
                    invariant
                        j <= existing@.len(),
                        ids@ == existing@.subrange(0, j as int),
                    decreases existing@.len() - j,
                {
                    ids.push(existing[j].clone());
                    j = j + 1;
                    assert(ids@ =~= existing@.subrange(0, j as int));
                }
                assert(ids@ =~= existing@);
                ids.push(token.token_id.clone());
                proof { lemma_lookup_at(old_cols, i as int); }
                self.collections.set_value_at(i, ids);
                proof { crate::strmap::lemma_update_value(old_cols, i as int, ids); }
            },
            None => {
                let mut ids: Vec<String> = Vec::new();
                ids.push(token.token_id.clone());
                self.collections.insert(token.collection.clone(), ids);
            },
        }
        let ghost old_tokens = self.tokens@;
        let ghost tok = token;
        let key = token.token_id.clone();
        self.tokens.insert(key, token);
        assert forall|i: int| 0 <= i < self.tokens@.len() implies (#[trigger] self.tokens@[i]).1.token_id@ == self.tokens@[i].0 by {
            if i < old_tokens.len() {
                assert(self.tokens@[i] == old_tokens[i]);
            }
        }
        Ok(())
    }

    /// Hands the token `token_id` from `from` to `to`.
    pub fn transfer(&mut self, token_id: &str, from: &str, to: &str) -> (r: Result<(), &'static str>)
        requires
            old(self).wf(),
        ensures
            final(self).wf(),
            final(self).collections_view() == old(self).collections_view(),
            !has_key(old(self).tokens_view(), token_id@) ==> {
                &&& r == Err::<(), &'static str>("Token not found")
                &&& final(self).tokens_view() == old(self).tokens_view()
            },
            lookup(old(self).tokens_view(), token_id@) matches Some(t) ==> if t.owner@ != from@ {
                &&& r == Err::<(), &'static str>("Not owner")
                &&& final(self).tokens_view() == old(self).tokens_view()
            } else {
                &&& r is Ok
                &&& final(self).tokens_view().len() == old(self).tokens_view().len()
                &&& forall|i: int| 0 <= i < old(self).tokens_view().len() ==> {
                    let e = old(self).tokens_view()[i];
                    let f = #[trigger] final(self).tokens_view()[i];
                    &&& f.0 == e.0
                    &&& (e.0 == token_id@ ==> owned_by_other(e.1, f.1, to@))
                    &&& (e.0 != token_id@ ==> f.1 == e.1)
                }
            },
    {
        let ghost s = self.tokens@;
        match self.tokens.find(token_id) {
            None => Err("Token not found"),
            Some(i) => {
                proof { lemma_lookup_at(s, i as int); }
                let t = self.tokens.value_at(i);
                if !str_eq(t.owner.as_str(), from) {
                    return Err("Not owner");
                }
                let mut updated = t.copy();
                updated.owner = to.to_owned();
                let ghost u = updated;
                self.tokens.set_value_at(i, updated);
                assert forall|k: int| 0 <= k < self.tokens@.len() implies (#[trigger] self.tokens@[k]).1.token_id@ == self.tokens@[k].0 by {
                    if k != i {
                        assert(self.tokens@[k] == s[k]);
                    }
                }
                assert forall|k: int| 0 <= k < s.len() implies {
                    let e = s[k];
                    let f = #[trigger] self.tokens@[k];
                    &&& f.0 == e.0
                    &&& (e.0 == token_id@ ==> owned_by_other(e.1, f.1, to@))
                    &&& (e.0 != token_id@ ==> f.1 == e.1)
                } by {
                    if k != i {
                        assert(s[k].0 != s[i as int].0);
                    }
                }
                Ok(())
            },
        }
    }

    pub fn get(&self, id: &str) -> (r: Option<&NftToken>)
        requires
            self.wf(),
        ensures
            match r {
                Some(t) => lookup(self.tokens_view(), id@) == Some(*t),
                None => lookup(self.tokens_view(), id@) is None,
            },
    {
        self.tokens.get(id)
    }

    /// The tokens held by `owner`.
    pub fn tokens_of(&self, owner: &str) -> (r: Vec<&NftToken>)
        ensures
            r@.len() == tokens_owned(self.tokens_view(), owner@).len(),
            forall|i: int| 0 <= i < r@.len() ==> *r@[i] == tokens_owned(self.tokens_view(), owner@)[i],
    {
        let ghost s = self.tokens@;
        let n = self.tokens.len();
        let mut out: Vec<&NftToken> = Vec::new();
        let mut i: usize = 0;
        while i < n
            invariant
                n == s.len(),
                s == self.tokens@,
                i <= n,
                out@.len() == tokens_owned(s.take(i as int), owner@).len(),
                forall|j: int| 0 <= j < out@.len() ==> *out@[j] == tokens_owned(s.take(i as int), owner@)[j],
            decreases n - i,
        {
            assert(s.take(i + 1).drop_last() =~= s.take(i as int));
            let t = self.tokens.value_at(i);
            if str_eq(t.owner.as_str(), owner) {
                out.push(t);
            }
            i = i + 1;
        }
        assert(s.take(n as int) =~= s);
        out
    }

    /// The tokens of the collection `name`, in mint order.
    pub fn collection(&self, name: &str) -> (r: Vec<&NftToken>)
        requires
            self.wf(),
        ensures
            lookup(self.collections_view(), name@) is None ==> r@.len() == 0,
            lookup(self.collections_view(), name@) matches Some(ids) ==> {
                let want = tokens_listed(self.tokens_view(), ids@);
                &&& r@.len() == want.len()
                &&& forall|i: int| 0 <= i < r@.len() ==> *r@[i] == want[i]
            },
    {
        let mut out: Vec<&NftToken> = Vec::new();
        match self.collections.get(name) {
            None => out,
            Some(ids) => {
                let ghost s = self.tokens@;
                let mut i: usize = 0;
                while i < ids.len()
                    invariant
                        s == self.tokens@,
                        self.tokens.wf(),
                        i <= ids@.len(),
                        out@.len() == tokens_listed(s, ids@.take(i as int)).len(),
                        forall|j: int| 0 <= j < out@.len() ==> *out@[j] == tokens_listed(s, ids@.take(i as int))[j],
                    decreases ids@.len() - i,
                {
                    assert(ids@.take(i + 1).drop_last() =~= ids@.take(i as int));
                    match self.tokens.get(ids[i].as_str()) {
                        Some(t) => { out.push(t); },
                        None => {},
                    }
                    i = i + 1;
                }
                assert(ids@.take(ids@.len() as int) =~= ids@);
                out
            },
        }
    }
}

// ── Laws ─────────────────────────────────────────────────────────────────────

/// A fee is split without loss: the five shares are non-negative and add up
/// to the fee, and once burning has stopped nothing goes to the burn.
pub proof fn law_fee_split_conserves_fee(fee: int, burn_stopped: bool)
    requires
        fee >= 0,
    ensures
        ({
            let p = split_spec(fee, burn_stopped);
            &&& p.0 >= 0 && p.1 >= 0 && p.2 >= 0 && p.3 >= 0 && p.4 >= 0
            &&& p.0 + p.1 + p.2 + p.3 + p.4 == fee
            &&& burn_stopped ==> p.2 == 0
        }),
{
}

/// Gas is never below the minimum fee.
pub proof fn law_gas_at_least_minimum(amount: int, tx_type: TxType)
    ensures
        gas_spec(amount, tx_type) >= MIN_GAS_FEE,
{
}

/// Burning never takes the total burned past the burn cap.
pub proof fn law_burn_within_cap(t: SupplyTracker, amount: int)
    requires
        t.total_burned <= BURN_CAP,
        amount >= 0,
    ensures
        t.after_burn(amount).total_burned <= BURN_CAP,
        t.burn_take(amount) <= amount,
{
}

/// Once the burn cap is reached burning stops: the burn that reaches it marks
/// the tracker stopped, and a stopped tracker burns nothing and stays as it is.
pub proof fn law_burn_stops_at_cap(t: SupplyTracker, amount: int, later: int)
    requires
        amount > 0,
        t.after_burn(amount).total_burned >= BURN_CAP,
    ensures
        t.after_burn(amount).burn_stopped,
        t.after_burn(amount).burn_take(later) == 0,
        t.after_burn(amount).after_burn(later) == t.after_burn(amount),
{
}

/// Minting never takes the minted supply past `MAX_SUPPLY`.
pub proof fn law_mint_within_max_supply(t: SupplyTracker, amount: int)
    requires
        t.total_minted <= MAX_SUPPLY,
        amount >= 0,
    ensures
        t.after_mint(amount).total_minted <= MAX_SUPPLY,
{
}

/// The block reward halves every `HALVING_INTERVAL` blocks.
pub proof fn law_reward_halves(height: int)
    requires
        height >= 0,
    ensures
        reward_spec(height + HALVING_INTERVAL) == reward_spec(height) / 2,
        reward_spec(height) <= BLOCK_REWARD,
{
    let k = height / HALVING_INTERVAL as int;
    assert((height + HALVING_INTERVAL) / HALVING_INTERVAL as int == k + 1);
    lemma_pow2_pos(k as nat);
    if k + 1 < 64 {
        lemma_pow2_unfold((k + 1) as nat);
        lemma_div_denominator(BLOCK_REWARD as int, pow2(k as nat) as int, 2);
        assert(pow2((k + 1) as nat) as int == pow2(k as nat) * 2);
    } else if k == 63 {
        lemma2_to64();
        lemma_pow2_strictly_increases(26, 63);
        assert(BLOCK_REWARD < pow2(26)) by { lemma2_to64(); }
        assert(BLOCK_REWARD as int / pow2(63) as int == 0) by (nonlinear_arith)
            requires BLOCK_REWARD < pow2(26), pow2(26) < pow2(63);
    }
    if k < 64 {
        assert(BLOCK_REWARD as int / pow2(k as nat) as int <= BLOCK_REWARD) by (nonlinear_arith)
            requires pow2(k as nat) > 0;
    }
}

/// The block reward never rises as the chain grows.
pub proof fn law_reward_never_rises(h1: int, h2: int)
    requires
        0 <= h1 <= h2,
    ensures
        reward_spec(h2) <= reward_spec(h1),
        reward_spec(h2) >= 0,
{
    let k1 = h1 / HALVING_INTERVAL as int;
    let k2 = h2 / HALVING_INTERVAL as int;
    assert(k1 <= k2) by (nonlinear_arith)
        requires 0 <= h1 <= h2, k1 == h1 / 2_100_000, k2 == h2 / 2_100_000;
    lemma_pow2_pos(k1 as nat);
    if k1 < 64 {
        assert(BLOCK_REWARD as int / pow2(k1 as nat) as int >= 0) by (nonlinear_arith)
            requires pow2(k1 as nat) > 0;
    }
    if k2 < 64 {
        lemma_pow2_pos(k2 as nat);
        if k1 < k2 {
            lemma_pow2_strictly_increases(k1 as nat, k2 as nat);
        }
        lemma_div_is_ordered_by_denominator(BLOCK_REWARD as int, pow2(k1 as nat) as int, pow2(k2 as nat) as int);
    }
}

/// The liquidity auto-lock happens at most once: after it has happened the
/// tracker no longer asks for it, whatever the balance.
pub proof fn law_auto_lock_once(t: SupplyTracker, balance: int)
    requires
        t.liquidity_auto_locked,
    ensures
        !t.should_auto_lock_spec(balance),
{
}

/// An unlock pass releases each matured timelock once: a second pass at the
/// same time releases nothing and changes nothing.
pub proof fn law_unlock_idempotent(s: Seq<TimelockPosition>, now: u64)
    ensures
        released(after_unlock(s, now), now) == Seq::<TimelockPosition>::empty(),
        released_total(after_unlock(s, now), now) == 0,
        after_unlock(after_unlock(s, now), now) == after_unlock(s, now),
{
    let a = after_unlock(s, now);
    assert forall|i: int| 0 <= i < a.len() implies !matured(#[trigger] a[i], now) by {}
    lemma_none_matured(a, now);
    assert(after_unlock(a, now) =~= a);
}

proof fn lemma_none_matured(s: Seq<TimelockPosition>, now: u64)
    requires
        forall|i: int| 0 <= i < s.len() ==> !matured(#[trigger] s[i], now),
    ensures
        released(s, now) == Seq::<TimelockPosition>::empty(),
        released_total(s, now) == 0,
    decreases s.len(),
{
    if s.len() > 0 {
        assert(!matured(s[s.len() - 1], now));
        lemma_none_matured(s.drop_last(), now);
    }
}

/// In a well-formed pool each lock is found by its own identifier.
pub proof fn law_lock_found_by_id(pool: LiquidityPool, n: int)
    requires
        pool.wf(),
        0 <= n < pool@.len(),
    ensures
        first_lock_with_id(pool@, lock_id(n as nat), n),
{
    pool.lemma_ids();
    assert forall|j: int| 0 <= j < n implies pool@[j].id@ != lock_id(n as nat) by {
        law_lock_ids_distinct(j as nat, n as nat);
    }
}

/// A due lock releases its amount exactly once: the release returns the
/// amount, and releasing it again is refused as already unlocked.
pub proof fn law_unlock_once(locks: Seq<LiquidityLock>, i: int, b1: u64, b2: u64)
    requires
        0 <= i < locks.len(),
        !locks[i].unlocked,
        b1 >= locks[i].unlock_block,
    ensures
        unlock_outcome(locks, i, b1).1 == Ok::<u128, &'static str>(locks[i].amount),
        unlock_outcome(unlock_outcome(locks, i, b1).0, i, b2).1 == Err::<u128, &'static str>("Already unlocked"),
        unlock_outcome(unlock_outcome(locks, i, b1).0, i, b2).0 == unlock_outcome(locks, i, b1).0,
{
}

/// Each liquidity lock gets its own identifier.
pub proof fn law_lock_ids_distinct(i: nat, j: nat)
    requires
        i != j,
    ensures
        lock_id(i) != lock_id(j),
{
    if lock_id(i) == lock_id(j) {
        reveal_strlit("lock_");
        assert(lock_id(i).subrange(5, lock_id(i).len() as int) =~= decimal(i));
        assert(lock_id(j).subrange(5, lock_id(j).len() as int) =~= decimal(j));
        crate::text::lemma_decimal_injective(i, j);
    }
}

} // verus!
