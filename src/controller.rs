//! The pool controller: the executable operations over a pool's state.

use vstd::prelude::*;
use crate::address::Address;
use crate::error::HplNectarStakingError;
use crate::ledger::{
    claim_spec, has_position, has_staker, is_staked, lemma_claim_wf, lemma_count_bound, lemma_count_positive,
    lemma_position_index, lemma_stake_wf, position_of, staker_of, lemma_staker_index, lemma_unstake_wf, lemma_use_nft_wf, position_index,
    stake_spec, staker_incremented, staker_index, unstake_spec, use_nft_spec, LedgerView,
};
use crate::multiplier::{lemma_pow10_bound, Multiplier, MultiplierAxis, Multipliers, MultipliersView, sorted_insert, axis_of};
use crate::nft::{same_criteria, NFTCriteria, NFTUsedBy, NFTv1, Staker};
use crate::pool::{CreateStakingPoolArgs, LockType, StakingPool, UpdateStakingPoolArgs};
use crate::rewards::calculate_rewards;

verus! {

/// The pool controller: one pool's record, multiplier table, accepted
/// classifications, and position and staker ledgers. Every operation is all
/// or nothing: a refusal leaves the state as it was.
///
/// `stake` and `unstake` return the lock type whose custody transfer the
/// caller performs, and `claim_rewards` the amount the caller delivers; when
/// that external step fails, the caller discards the whole operation.
#[derive(Clone)]
pub struct PoolController {
    pool: StakingPool,
    multipliers: Multipliers,
    criteria: Vec<NFTCriteria>,
    positions: Vec<NFTv1>,
    stakers: Vec<Staker>,
}

impl View for PoolController {
    type V = LedgerView;

    closed spec fn view(&self) -> LedgerView {
        LedgerView {
            pool: self.pool,
            multipliers: self.multipliers@,
            criteria: self.criteria@,
            positions: self.positions@,
            stakers: self.stakers@,
        }
    }
}

/// The state of a newly created pool.
pub open spec fn new_ledger(key: Address, args: CreateStakingPoolArgs) -> LedgerView {
    LedgerView {
        pool: StakingPool::from_args(key, args),
        multipliers: MultipliersView {
            decimals: 0,
            scale: 1,
            by_duration: Seq::empty(),
            by_count: Seq::empty(),
            by_creator: Seq::empty(),
            by_collection: Seq::empty(),
        },
        criteria: Seq::empty(),
        positions: Seq::empty(),
        stakers: Seq::empty(),
    }
}

fn find_position(positions: &Vec<NFTv1>, asset: &Address) -> (r: Option<usize>)
    requires
        forall|a: int, b: int| 0 <= a < b < positions@.len() ==> (#[trigger] positions@[a]).mint != (#[trigger] positions@[b]).mint,
    ensures
        r is Some <==> has_position(positions@, *asset),
        r is Some ==> r->Some_0 == position_index(positions@, *asset) && r->Some_0 < positions@.len(),
{
    let mut i: usize = 0;
    while i < positions.len()
        invariant
            0 <= i <= positions@.len(),
            forall|j: int| 0 <= j < i ==> (#[trigger] positions@[j]).mint != *asset,
            forall|a: int, b: int| 0 <= a < b < positions@.len() ==> (#[trigger] positions@[a]).mint != (#[trigger] positions@[b]).mint,
        decreases positions.len() - i,
    {
        if positions[i].mint.same(asset) {
            proof {
                lemma_position_index(positions@, *asset, i as int);
            }
            return Some(i);
        }
        i += 1;
    }
    None
}

fn find_staker(stakers: &Vec<Staker>, wallet: &Address) -> (r: Option<usize>)
    requires
        forall|a: int, b: int| 0 <= a < b < stakers@.len() ==> (#[trigger] stakers@[a]).wallet != (#[trigger] stakers@[b]).wallet,
    ensures
        r is Some <==> has_staker(stakers@, *wallet),
        r is Some ==> r->Some_0 == staker_index(stakers@, *wallet) && r->Some_0 < stakers@.len(),
{
    let mut i: usize = 0;
    while i < stakers.len()
        invariant
            0 <= i <= stakers@.len(),
            forall|j: int| 0 <= j < i ==> (#[trigger] stakers@[j]).wallet != *wallet,
            forall|a: int, b: int| 0 <= a < b < stakers@.len() ==> (#[trigger] stakers@[a]).wallet != (#[trigger] stakers@[b]).wallet,
        decreases stakers.len() - i,
    {
        if stakers[i].wallet.same(wallet) {
            proof {
                lemma_staker_index(stakers@, *wallet, i as int);
            }
            return Some(i);
        }
        i += 1;
    }
    None
}

fn contains_criteria(criteria: &Vec<NFTCriteria>, c: &NFTCriteria) -> (r: bool)
    ensures
        r == criteria@.contains(*c),
{
    let mut i: usize = 0;
    while i < criteria.len()
        invariant
            0 <= i <= criteria@.len(),
            forall|j: int| 0 <= j < i ==> criteria@[j] != *c,
        decreases criteria.len() - i,
    {
        if same_criteria(&criteria[i], c) {
            return true;
        }
        i += 1;
    }
    false
}

fn increment_staker(stakers: &mut Vec<Staker>, wallet: Address)
    requires
        forall|a: int, b: int| 0 <= a < b < old(stakers)@.len() ==> (#[trigger] old(stakers)@[a]).wallet != (#[trigger] old(stakers)@[b]).wallet,
        has_staker(old(stakers)@, wallet) ==> old(stakers)@[staker_index(old(stakers)@, wallet)].total_staked < u64::MAX,
    ensures
        final(stakers)@ == staker_incremented(old(stakers)@, wallet),
{
    match find_staker(stakers, &wallet) {
        Some(k) => {
            let s = stakers[k];
            stakers.set(k, Staker { total_staked: s.total_staked + 1, ..s });
        },
        None => {
            stakers.push(Staker { wallet, total_staked: 1 });
        },
    }
}

impl PoolController {
    /// `CreatePool`: a pool with the given settings, a neutral multiplier
    /// table (scale 1, no tiers), no accepted classification and no
    /// position. Refused with `InvalidPoolConfig` when the rate, the reward
    /// unit or the cap is zero.
    pub fn new(key: Address, args: CreateStakingPoolArgs) -> (r: Result<PoolController, HplNectarStakingError>)
        ensures
            StakingPool::from_args(key, args).valid_config() ==> r is Ok && r->Ok_0@ == new_ledger(key, args),
            !StakingPool::from_args(key, args).valid_config() ==> r == Err::<PoolController, HplNectarStakingError>(HplNectarStakingError::InvalidPoolConfig),
            r is Ok ==> r->Ok_0@.wf(),
    {
        let pool = match StakingPool::create_staking_pool(key, args) {
            Ok(p) => p,
            Err(e) => return Err(e),
        };
        let multipliers = match Multipliers::new(0) {
            Ok(m) => m,
            Err(e) => return Err(e),
        };
        proof {
            reveal_with_fuel(crate::multiplier::pow10, 1);
        }
        let c = PoolController { pool, multipliers, criteria: Vec::new(), positions: Vec::new(), stakers: Vec::new() };
        assert(c@.criteria =~= Seq::empty());
        assert(c@.positions =~= Seq::empty());
        assert(c@.stakers =~= Seq::empty());
        Ok(c)
    }

    /// The pool record.
    pub fn pool(&self) -> (r: &StakingPool)
        ensures
            *r == self@.pool,
    {
        &self.pool
    }

    /// The multiplier table.
    pub fn multipliers(&self) -> (r: &Multipliers)
        ensures
            r@ == self@.multipliers,
    {
        &self.multipliers
    }

    /// The accepted classifications.
    pub fn criteria(&self) -> (r: &Vec<NFTCriteria>)
        ensures
            r@ == self@.criteria,
    {
        &self.criteria
    }

    /// The position of `asset`, if it has one.
    pub fn position(&self, asset: Address) -> (r: Option<NFTv1>)
        requires
            self@.wf(),
        ensures
            r == position_of(self@, asset),
    {
        match find_position(&self.positions, &asset) {
            Some(i) => Some(self.positions[i]),
            None => None,
        }
    }

    /// The staker record of `wallet`, if it has one.
    pub fn staker(&self, wallet: Address) -> (r: Option<Staker>)
        requires
            self@.wf(),
        ensures
            r == staker_of(self@, wallet),
    {
        match find_staker(&self.stakers, &wallet) {
            Some(k) => Some(self.stakers[k]),
            None => None,
        }
    }

    /// Replaces the given pool settings (see `StakingPool::update_staking_pool`).
    pub fn update_staking_pool(&mut self, args: UpdateStakingPoolArgs) -> (r: Result<(), HplNectarStakingError>)
        requires
            old(self)@.wf(),
        ensures
            final(self)@.wf(),
            old(self)@.pool.updated(args).valid_config() ==> r is Ok
                && final(self)@ == (LedgerView { pool: old(self)@.pool.updated(args), ..old(self)@ }),
            !old(self)@.pool.updated(args).valid_config() ==> r == Err::<(), HplNectarStakingError>(HplNectarStakingError::InvalidPoolConfig)
                && final(self)@ == old(self)@,
    {
        self.pool.update_staking_pool(args)
    }

    /// Accepts one more classification for new positions. Refused with
    /// `InvalidPoolConfig` for `Unclassified`.
    pub fn add_criteria(&mut self, criteria: NFTCriteria) -> (r: Result<(), HplNectarStakingError>)
        requires
            old(self)@.wf(),
        ensures
            final(self)@.wf(),
            criteria != NFTCriteria::Unclassified ==> r is Ok
                && final(self)@ == (LedgerView { criteria: old(self)@.criteria.push(criteria), ..old(self)@ }),
            criteria == NFTCriteria::Unclassified ==> r == Err::<(), HplNectarStakingError>(HplNectarStakingError::InvalidPoolConfig)
                && final(self)@ == old(self)@,
    {
        if let NFTCriteria::Unclassified = criteria {
            return Err(HplNectarStakingError::InvalidPoolConfig);
        }
        self.criteria.push(criteria);
        Ok(())
    }

    /// Replaces the multiplier table with an empty one of scale
    /// `10^decimals`. Refused with `MultiplierConfigInvalid` when
    /// `decimals > 19`.
    pub fn init_multipliers(&mut self, decimals: u8) -> (r: Result<(), HplNectarStakingError>)
        requires
            old(self)@.wf(),
        ensures
            final(self)@.wf(),
            decimals <= 19 ==> r is Ok && final(self)@.multipliers.decimals == decimals
                && final(self)@.multipliers.tiers(MultiplierAxis::Duration).len() == 0
                && final(self)@.multipliers.tiers(MultiplierAxis::Count).len() == 0
                && final(self)@.multipliers.tiers(MultiplierAxis::Creator).len() == 0
                && final(self)@.multipliers.tiers(MultiplierAxis::Collection).len() == 0
                && final(self)@ == (LedgerView { multipliers: final(self)@.multipliers, ..old(self)@ }),
            decimals > 19 ==> r == Err::<(), HplNectarStakingError>(HplNectarStakingError::MultiplierConfigInvalid)
                && final(self)@ == old(self)@,
    {
        match Multipliers::new(decimals) {
            Ok(m) => {
                self.multipliers = m;
                Ok(())
            },
            Err(e) => Err(e),
        }
    }

    /// `AddMultiplierTier` (see `Multipliers::add_multiplier`).
    pub fn add_multiplier(&mut self, axis: MultiplierAxis, multiplier: Multiplier) -> (r: Result<(), HplNectarStakingError>)
        requires
            old(self)@.wf(),
        ensures
            final(self)@.wf(),
            axis_of(multiplier.multiplier_type) == axis ==> r is Ok && final(self)@ == (LedgerView {
                multipliers: old(self)@.multipliers.with_tiers(axis, sorted_insert(old(self)@.multipliers.tiers(axis), axis, multiplier)),
                ..old(self)@
            }),
            axis_of(multiplier.multiplier_type) != axis ==> r == Err::<(), HplNectarStakingError>(HplNectarStakingError::MultiplierConfigInvalid)
                && final(self)@ == old(self)@,
    {
        self.multipliers.add_multiplier(axis, multiplier)
    }

    /// `Stake`: `wallet` stakes `asset` at time `now`. For an asset with no
    /// position yet, `verdict` is the eligibility oracle's classification
    /// of it, which must be one of the pool's accepted classifications.
    /// Returns the lock type under which the caller takes custody.
    pub fn stake(&mut self, asset: Address, wallet: Address, now: u64, verdict: NFTCriteria) -> (r: Result<LockType, HplNectarStakingError>)
        requires
            old(self)@.wf(),
        ensures
            final(self)@.wf(),
            old(self)@.advances_to(final(self)@),
            match stake_spec(old(self)@, asset, wallet, now, verdict) {
                Ok((n, lock)) => r == Ok::<LockType, HplNectarStakingError>(lock) && final(self)@ == n,
                Err(e) => r == Err::<LockType, HplNectarStakingError>(e) && final(self)@ == old(self)@,
            },
    {
        let ghost v = self@;
        match find_position(&self.positions, &asset) {
            Some(i) => {
                let p = self.positions[i];
                if p.staker.is_some() {
                    return Err(HplNectarStakingError::AlreadyStaked);
                }
                if let (Some(cooldown), Some(t)) = (self.pool.cooldown_duration, p.last_unstaked_at) {
                    if now < t || now - t < cooldown {
                        return Err(HplNectarStakingError::CooldownActive);
                    }
                }
                if self.pool.total_staked == u64::MAX {
                    return Err(HplNectarStakingError::ArithmeticOverflow);
                }
                let reset = self.pool.reset_stake_duration;
                let restaked = NFTv1 {
                    staker: Some(wallet),
                    last_staked_at: now,
                    staked_at: if reset { now } else { p.staked_at },
                    last_claim: if reset && p.last_claim < now { now } else { p.last_claim },
                    ..p
                };
                self.positions.set(i, restaked);
            },
            None => {
                if let NFTCriteria::Unclassified = verdict {
                    return Err(HplNectarStakingError::NotEligible);
                }
                if !contains_criteria(&self.criteria, &verdict) {
                    return Err(HplNectarStakingError::NotEligible);
                }
                if self.pool.total_staked == u64::MAX {
                    return Err(HplNectarStakingError::ArithmeticOverflow);
                }
                self.positions.push(NFTv1 {
                    mint: asset,
                    staker: Some(wallet),
                    last_claim: now,
                    staked_at: now,
                    last_staked_at: now,
                    last_unstaked_at: None,
                    criteria: verdict,
                    used_by: NFTUsedBy::Free,
                });
            },
        }
        proof {
            lemma_stake_wf(v, asset, wallet, now, verdict);
            if has_staker(v.stakers, wallet) {
                lemma_count_bound(v.positions, wallet);
            }
        }
        self.pool.total_staked = self.pool.total_staked + 1;
        increment_staker(&mut self.stakers, wallet);
        Ok(self.pool.lock_type)
    }

    /// `Unstake`: `wallet` unstakes `asset` at time `now`. Returns the lock
    /// type under which the caller releases custody.
    pub fn unstake(&mut self, asset: Address, wallet: Address, now: u64) -> (r: Result<LockType, HplNectarStakingError>)
        requires
            old(self)@.wf(),
        ensures
            final(self)@.wf(),
            old(self)@.advances_to(final(self)@),
            match unstake_spec(old(self)@, asset, wallet, now) {
                Ok((n, lock)) => r == Ok::<LockType, HplNectarStakingError>(lock) && final(self)@ == n,
                Err(e) => r == Err::<LockType, HplNectarStakingError>(e) && final(self)@ == old(self)@,
            },
    {
        let ghost v = self@;
        let i = match find_position(&self.positions, &asset) {
            Some(i) => i,
            None => return Err(HplNectarStakingError::NotStaked),
        };
        let p = self.positions[i];
        match p.staker {
            None => return Err(HplNectarStakingError::NotStaked),
            Some(holder) => {
                if !holder.same(&wallet) {
                    return Err(HplNectarStakingError::StakerMismatch);
                }
            },
        }
        if p.used_by != NFTUsedBy::Free {
            return Err(HplNectarStakingError::AssetInUse);
        }
        if let Some(min) = self.pool.min_stake_duration {
            if now < p.last_staked_at || now - p.last_staked_at < min {
                return Err(HplNectarStakingError::MinDurationNotMet);
            }
        }
        let k = match find_staker(&self.stakers, &wallet) {
            Some(k) => k,
            None => {
                proof {
                    assert(is_staked(v.positions[i as int]));
                }
                return Err(HplNectarStakingError::NotStaked);
            },
        };
        proof {
            lemma_unstake_wf(v, asset, wallet, now);
            lemma_count_positive(v.positions, i as int);
        }
        self.positions.set(i, NFTv1 { staker: None, last_unstaked_at: Some(now), ..p });
        self.pool.total_staked = self.pool.total_staked - 1;
        let s = self.stakers[k];
        self.stakers.set(k, Staker { total_staked: s.total_staked - 1, ..s });
        Ok(self.pool.lock_type)
    }

    /// `ClaimRewards`: `wallet` claims the reward of `asset` at time `now`.
    /// Returns the amount the caller delivers; see `claim_spec`.
    pub fn claim_rewards(&mut self, asset: Address, wallet: Address, now: u64) -> (r: Result<u64, HplNectarStakingError>)
        requires
            old(self)@.wf(),
        ensures
            final(self)@.wf(),
            old(self)@.advances_to(final(self)@),
            match claim_spec(old(self)@, asset, wallet, now) {
                Ok((n, amount)) => r == Ok::<u64, HplNectarStakingError>(amount) && final(self)@ == n,
                Err(e) => r == Err::<u64, HplNectarStakingError>(e) && final(self)@ == old(self)@,
            },
    {
        let ghost v = self@;
        let i = match find_position(&self.positions, &asset) {
            Some(i) => i,
            None => return Err(HplNectarStakingError::NotStaked),
        };
        let p = self.positions[i];
        match p.staker {
            None => return Err(HplNectarStakingError::NotStaked),
            Some(holder) => {
                if !holder.same(&wallet) {
                    return Err(HplNectarStakingError::StakerMismatch);
                }
            },
        }
        let elapsed: u64 = if now >= p.last_claim { now - p.last_claim } else { 0 };
        if elapsed < self.pool.rewards_duration {
            if self.pool.reject_early_claims {
                return Err(HplNectarStakingError::RewardsNotYetAvailable);
            }
            return Ok(0);
        }
        let k = match find_staker(&self.stakers, &wallet) {
            Some(k) => k,
            None => {
                proof {
                    assert(is_staked(v.positions[i as int]));
                }
                return Ok(0);
            },
        };
        proof {
            lemma_pow10_bound(v.multipliers.decimals as nat);
        }
        let count = self.stakers[k].total_staked;
        match calculate_rewards(&self.pool, &self.multipliers, p.criteria, count, elapsed) {
            Err(e) => Err(e),
            Ok((amount, _)) => {
                if amount > 0 {
                    proof {
                        lemma_claim_wf(v, asset, wallet, now);
                    }
                    self.positions.set(i, NFTv1 { last_claim: now, ..p });
                }
                Ok(amount)
            },
        }
    }

    /// The reservation interface: another service marks a staked asset as
    /// used (it cannot be unstaked until freed) or as free again. Refused
    /// with `NotStaked` for an asset that is not staked.
    pub fn use_nft(&mut self, asset: Address, used_by: NFTUsedBy) -> (r: Result<(), HplNectarStakingError>)
        requires
            old(self)@.wf(),
        ensures
            final(self)@.wf(),
            old(self)@.advances_to(final(self)@),
            match use_nft_spec(old(self)@, asset, used_by) {
                Ok(n) => r is Ok && final(self)@ == n,
                Err(e) => r == Err::<(), HplNectarStakingError>(e) && final(self)@ == old(self)@,
            },
    {
        let ghost v = self@;
        let i = match find_position(&self.positions, &asset) {
            Some(i) => i,
            None => return Err(HplNectarStakingError::NotStaked),
        };
        let p = self.positions[i];
        if p.staker.is_none() {
            return Err(HplNectarStakingError::NotStaked);
        }
        proof {
            lemma_use_nft_wf(v, asset, used_by);
        }
        self.positions.set(i, NFTv1 { used_by, ..p });
        Ok(())
    }
}

} // verus!
