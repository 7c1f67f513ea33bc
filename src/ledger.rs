//! The mathematical model of a pool's state, the effect of each operation
//! on it, and the laws that the operations obey.

use vstd::prelude::*;
use crate::address::Address;
use crate::error::HplNectarStakingError;
use crate::multiplier::MultipliersView;
use crate::nft::{NFTCriteria, NFTUsedBy, NFTv1, Staker};
use crate::pool::{LockType, StakingPool};
use crate::multiplier::lemma_pow10_bound;
use crate::rewards::{base_reward, capped_elapsed, elapsed_since, reward_amount, reward_fits, total_multiplier};

verus! {

/// The whole state of one pool: its record, its multiplier table, the
/// classifications it accepts, and its position and staker ledgers.
pub struct LedgerView {
    pub pool: StakingPool,
    pub multipliers: MultipliersView,
    pub criteria: Seq<NFTCriteria>,
    pub positions: Seq<NFTv1>,
    pub stakers: Seq<Staker>,
}

pub open spec fn is_staked(p: NFTv1) -> bool {
    p.staker is Some
}

pub open spec fn has_position(s: Seq<NFTv1>, asset: Address) -> bool {
    exists|i: int| 0 <= i < s.len() && (#[trigger] s[i]).mint == asset
}

/// Where the position of `asset` stands (meaningful when it has one).
pub open spec fn position_index(s: Seq<NFTv1>, asset: Address) -> int {
    choose|i: int| 0 <= i < s.len() && (#[trigger] s[i]).mint == asset
}

pub open spec fn has_staker(s: Seq<Staker>, wallet: Address) -> bool {
    exists|i: int| 0 <= i < s.len() && (#[trigger] s[i]).wallet == wallet
}

/// Where the staker record of `wallet` stands (meaningful when it has one).
pub open spec fn staker_index(s: Seq<Staker>, wallet: Address) -> int {
    choose|i: int| 0 <= i < s.len() && (#[trigger] s[i]).wallet == wallet
}

pub open spec fn staked_ind(p: NFTv1) -> nat {
    if p.staker is Some { 1 } else { 0 }
}

pub open spec fn staked_by_ind(p: NFTv1, wallet: Address) -> nat {
    if p.staker == Some(wallet) { 1 } else { 0 }
}

/// The number of staked positions.
pub open spec fn count_staked(s: Seq<NFTv1>) -> nat
    decreases s.len(),
{
    if s.len() == 0 {
        0
    } else {
        count_staked(s.drop_last()) + staked_ind(s.last())
    }
}

/// The number of positions staked by `wallet`.
pub open spec fn count_staked_by(s: Seq<NFTv1>, wallet: Address) -> nat
    decreases s.len(),
{
    if s.len() == 0 {
        0
    } else {
        count_staked_by(s.drop_last(), wallet) + staked_by_ind(s.last(), wallet)
    }
}

impl LedgerView {
    /// The invariant of a pool's state: a valid configuration and table,
    /// one position per asset and one record per staker, counters that
    /// equal the number of staked positions (for the pool and for each
    /// staker), a staker record behind every staked position, and no
    /// reservation on an unstaked position.
    pub open spec fn wf(self) -> bool {
        &&& self.pool.valid_config()
        &&& self.multipliers.wf()
        &&& forall|i: int, j: int| 0 <= i < j < self.positions.len() ==> (#[trigger] self.positions[i]).mint != (#[trigger] self.positions[j]).mint
        &&& forall|i: int, j: int| 0 <= i < j < self.stakers.len() ==> (#[trigger] self.stakers[i]).wallet != (#[trigger] self.stakers[j]).wallet
        &&& self.pool.total_staked == count_staked(self.positions)
        &&& forall|k: int| 0 <= k < self.stakers.len() ==> (#[trigger] self.stakers[k]).total_staked == count_staked_by(self.positions, self.stakers[k].wallet)
        &&& forall|i: int| 0 <= i < self.positions.len() && is_staked(#[trigger] self.positions[i]) ==> has_staker(self.stakers, self.positions[i].staker->Some_0)
        &&& forall|i: int| 0 <= i < self.positions.len() && !is_staked(#[trigger] self.positions[i]) ==> self.positions[i].used_by == NFTUsedBy::Free
    }

    /// Moving from `self` to `next` removes no position, moves none, and
    /// moves no accrual clock back.
    pub open spec fn advances_to(self, next: LedgerView) -> bool {
        &&& self.positions.len() <= next.positions.len()
        &&& forall|i: int| 0 <= i < self.positions.len() ==> {
            &&& (#[trigger] next.positions[i]).mint == self.positions[i].mint
            &&& next.positions[i].last_claim >= self.positions[i].last_claim
        }
    }

    /// The staked count of `wallet`'s record (meaningful when it has one).
    pub open spec fn staker_count(self, wallet: Address) -> u64 {
        self.stakers[staker_index(self.stakers, wallet)].total_staked
    }
}

/// The position of `asset`, if it has one.
pub open spec fn position_of(v: LedgerView, asset: Address) -> Option<NFTv1> {
    if has_position(v.positions, asset) {
        Some(v.positions[position_index(v.positions, asset)])
    } else {
        None
    }
}

/// The staker record of `wallet`, if it has one.
pub open spec fn staker_of(v: LedgerView, wallet: Address) -> Option<Staker> {
    if has_staker(v.stakers, wallet) {
        Some(v.stakers[staker_index(v.stakers, wallet)])
    } else {
        None
    }
}

/// A stake is refused while the pool's cooldown since the last unstake runs.
pub open spec fn cooldown_active(pool: StakingPool, p: NFTv1, now: u64) -> bool {
    match (pool.cooldown_duration, p.last_unstaked_at) {
        (Some(cooldown), Some(t)) => (now as int) < t + cooldown,
        _ => false,
    }
}

/// An unstake is refused until the pool's minimum duration since the last
/// stake has passed.
pub open spec fn min_duration_pending(pool: StakingPool, p: NFTv1, now: u64) -> bool {
    match pool.min_stake_duration {
        Some(d) => (now as int) < p.last_staked_at + d,
        None => false,
    }
}

/// The position created by the first stake of `asset`.
pub open spec fn first_stake(asset: Address, wallet: Address, now: u64, criteria: NFTCriteria) -> NFTv1 {
    NFTv1 {
        mint: asset,
        staker: Some(wallet),
        last_claim: now,
        staked_at: now,
        last_staked_at: now,
        last_unstaked_at: None,
        criteria,
        used_by: NFTUsedBy::Free,
    }
}

/// A position staked again: the clocks restart when the pool asks for it,
/// the accrual clock never moving back.
pub open spec fn restake(pool: StakingPool, p: NFTv1, wallet: Address, now: u64) -> NFTv1 {
    NFTv1 {
        staker: Some(wallet),
        last_staked_at: now,
        staked_at: if pool.reset_stake_duration { now } else { p.staked_at },
        last_claim: if pool.reset_stake_duration && p.last_claim < now { now } else { p.last_claim },
        ..p
    }
}

/// The staker records with `wallet`'s count raised by one (a new record
/// when it has none).
pub open spec fn staker_incremented(s: Seq<Staker>, wallet: Address) -> Seq<Staker> {
    if has_staker(s, wallet) {
        let k = staker_index(s, wallet);
        s.update(k, Staker { total_staked: (s[k].total_staked + 1) as u64, ..s[k] })
    } else {
        s.push(Staker { wallet, total_staked: 1 })
    }
}

/// The staker records with `wallet`'s count lowered by one.
pub open spec fn staker_decremented(s: Seq<Staker>, wallet: Address) -> Seq<Staker> {
    let k = staker_index(s, wallet);
    s.update(k, Staker { total_staked: (s[k].total_staked - 1) as u64, ..s[k] })
}

pub open spec fn pool_with_count(pool: StakingPool, n: int) -> StakingPool {
    StakingPool { total_staked: n as u64, ..pool }
}

/// `Stake`: the new state and the lock to apply, or the refusal.
pub open spec fn stake_spec(v: LedgerView, asset: Address, wallet: Address, now: u64, verdict: NFTCriteria) -> Result<(LedgerView, LockType), HplNectarStakingError> {
    if has_position(v.positions, asset) {
        let i = position_index(v.positions, asset);
        let p = v.positions[i];
        if is_staked(p) {
            Err(HplNectarStakingError::AlreadyStaked)
        } else if cooldown_active(v.pool, p, now) {
            Err(HplNectarStakingError::CooldownActive)
        } else if v.pool.total_staked == u64::MAX {
            Err(HplNectarStakingError::ArithmeticOverflow)
        } else {
            Ok((
                LedgerView {
                    pool: pool_with_count(v.pool, v.pool.total_staked + 1),
                    positions: v.positions.update(i, restake(v.pool, p, wallet, now)),
                    stakers: staker_incremented(v.stakers, wallet),
                    ..v
                },
                v.pool.lock_type,
            ))
        }
    } else if verdict == NFTCriteria::Unclassified || !v.criteria.contains(verdict) {
        Err(HplNectarStakingError::NotEligible)
    } else if v.pool.total_staked == u64::MAX {
        Err(HplNectarStakingError::ArithmeticOverflow)
    } else {
        Ok((
            LedgerView {
                pool: pool_with_count(v.pool, v.pool.total_staked + 1),
                positions: v.positions.push(first_stake(asset, wallet, now, verdict)),
                stakers: staker_incremented(v.stakers, wallet),
                ..v
            },
            v.pool.lock_type,
        ))
    }
}

/// The refusal owed when `wallet` acts on `asset` as its staker, if any.
pub open spec fn holder_error(v: LedgerView, asset: Address, wallet: Address) -> Option<HplNectarStakingError> {
    if !has_position(v.positions, asset) || !is_staked(v.positions[position_index(v.positions, asset)]) {
        Some(HplNectarStakingError::NotStaked)
    } else if v.positions[position_index(v.positions, asset)].staker != Some(wallet) {
        Some(HplNectarStakingError::StakerMismatch)
    } else {
        None
    }
}

/// `Unstake`: the new state and the lock to release, or the refusal.
pub open spec fn unstake_spec(v: LedgerView, asset: Address, wallet: Address, now: u64) -> Result<(LedgerView, LockType), HplNectarStakingError> {
    let i = position_index(v.positions, asset);
    let p = v.positions[i];
    if holder_error(v, asset, wallet) is Some {
        Err(holder_error(v, asset, wallet)->Some_0)
    } else if p.used_by != NFTUsedBy::Free {
        Err(HplNectarStakingError::AssetInUse)
    } else if min_duration_pending(v.pool, p, now) {
        Err(HplNectarStakingError::MinDurationNotMet)
    } else {
        Ok((
            LedgerView {
                pool: pool_with_count(v.pool, v.pool.total_staked - 1),
                positions: v.positions.update(i, NFTv1 { staker: None, last_unstaked_at: Some(now), ..p }),
                stakers: staker_decremented(v.stakers, wallet),
                ..v
            },
            v.pool.lock_type,
        ))
    }
}

/// `ClaimRewards`: the new state and the amount to deliver, or the refusal.
/// Before one reward unit has elapsed nothing is paid and nothing changes;
/// the accrual clock moves to `now` only when a non-zero amount is paid.
pub open spec fn claim_spec(v: LedgerView, asset: Address, wallet: Address, now: u64) -> Result<(LedgerView, u64), HplNectarStakingError> {
    let i = position_index(v.positions, asset);
    let p = v.positions[i];
    let elapsed = elapsed_since(p.last_claim, now);
    let count = v.staker_count(wallet);
    if holder_error(v, asset, wallet) is Some {
        Err(holder_error(v, asset, wallet)->Some_0)
    } else if elapsed < v.pool.rewards_duration {
        if v.pool.reject_early_claims {
            Err(HplNectarStakingError::RewardsNotYetAvailable)
        } else {
            Ok((v, 0))
        }
    } else if !reward_fits(v.pool, v.multipliers, p.criteria, count, elapsed) {
        Err(HplNectarStakingError::ArithmeticOverflow)
    } else {
        let amount = reward_amount(v.pool, v.multipliers, p.criteria, count, elapsed) as u64;
        if amount > 0 {
            Ok((LedgerView { positions: v.positions.update(i, NFTv1 { last_claim: now, ..p }), ..v }, amount))
        } else {
            Ok((v, 0))
        }
    }
}

/// The reservation interface: marks a staked asset as used or free.
pub open spec fn use_nft_spec(v: LedgerView, asset: Address, used_by: NFTUsedBy) -> Result<LedgerView, HplNectarStakingError> {
    let i = position_index(v.positions, asset);
    if !has_position(v.positions, asset) || !is_staked(v.positions[i]) {
        Err(HplNectarStakingError::NotStaked)
    } else {
        Ok(LedgerView { positions: v.positions.update(i, NFTv1 { used_by, ..v.positions[i] }), ..v })
    }
}

// ----- counting -----

pub proof fn lemma_count_push(s: Seq<NFTv1>, x: NFTv1)
    ensures
        count_staked(s.push(x)) == count_staked(s) + staked_ind(x),
        forall|w: Address| count_staked_by(s.push(x), w) == count_staked_by(s, w) + staked_by_ind(x, w),
{
    assert(s.push(x).drop_last() =~= s);
}

pub proof fn lemma_count_update(s: Seq<NFTv1>, i: int, x: NFTv1)
    requires
        0 <= i < s.len(),
    ensures
        count_staked(s.update(i, x)) == count_staked(s) - staked_ind(s[i]) + staked_ind(x),
        forall|w: Address| count_staked_by(s.update(i, x), w) == count_staked_by(s, w) - staked_by_ind(s[i], w) + staked_by_ind(x, w),
    decreases s.len(),
{
    let t = s.update(i, x);
    if i == s.len() - 1 {
        assert(t.drop_last() =~= s.drop_last());
        assert forall|w: Address| count_staked_by(t, w) == count_staked_by(s, w) - staked_by_ind(s[i], w) + staked_by_ind(x, w) by {
            assert(count_staked_by(t, w) == count_staked_by(t.drop_last(), w) + staked_by_ind(t.last(), w));
            assert(count_staked_by(s, w) == count_staked_by(s.drop_last(), w) + staked_by_ind(s.last(), w));
        }
    } else {
        assert(t.drop_last() =~= s.drop_last().update(i, x));
        lemma_count_update(s.drop_last(), i, x);
        assert forall|w: Address| count_staked_by(t, w) == count_staked_by(s, w) - staked_by_ind(s[i], w) + staked_by_ind(x, w) by {
            assert(count_staked_by(t, w) == count_staked_by(t.drop_last(), w) + staked_by_ind(t.last(), w));
            assert(count_staked_by(s, w) == count_staked_by(s.drop_last(), w) + staked_by_ind(s.last(), w));
            assert(s.drop_last()[i] == s[i]);
        }
    }
}

pub proof fn lemma_count_bound(s: Seq<NFTv1>, w: Address)
    ensures
        count_staked_by(s, w) <= count_staked(s) <= s.len(),
    decreases s.len(),
{
    if s.len() > 0 {
        lemma_count_bound(s.drop_last(), w);
    }
}

pub proof fn lemma_count_by_none(s: Seq<NFTv1>, w: Address)
    requires
        forall|i: int| 0 <= i < s.len() ==> (#[trigger] s[i]).staker != Some(w),
    ensures
        count_staked_by(s, w) == 0,
    decreases s.len(),
{
    if s.len() > 0 {
        assert forall|i: int| 0 <= i < s.drop_last().len() implies (#[trigger] s.drop_last()[i]).staker != Some(w) by {
            assert(s.drop_last()[i] == s[i]);
        }
        lemma_count_by_none(s.drop_last(), w);
    }
}

/// A staked position counts once for the pool and once for its staker, so
/// neither count is zero while it stands.
pub proof fn lemma_count_positive(s: Seq<NFTv1>, i: int)
    requires
        0 <= i < s.len(),
        is_staked(s[i]),
    ensures
        count_staked(s) >= 1,
        count_staked_by(s, s[i].staker->Some_0) >= 1,
{
    let x = NFTv1 { staker: None, ..s[i] };
    lemma_count_update(s, i, x);
    let w = s[i].staker->Some_0;
    assert(count_staked_by(s.update(i, x), w) == count_staked_by(s, w) - staked_by_ind(s[i], w) + staked_by_ind(x, w));
}

pub proof fn lemma_position_index(s: Seq<NFTv1>, asset: Address, i: int)
    requires
        forall|a: int, b: int| 0 <= a < b < s.len() ==> (#[trigger] s[a]).mint != (#[trigger] s[b]).mint,
        0 <= i < s.len(),
        s[i].mint == asset,
    ensures
        has_position(s, asset),
        position_index(s, asset) == i,
{
    assert(has_position(s, asset));
    let j = position_index(s, asset);
    if j < i {
        assert(s[j].mint != s[i].mint);
    } else if j > i {
        assert(s[i].mint != s[j].mint);
    }
}

pub proof fn lemma_staker_index(s: Seq<Staker>, wallet: Address, k: int)
    requires
        forall|a: int, b: int| 0 <= a < b < s.len() ==> (#[trigger] s[a]).wallet != (#[trigger] s[b]).wallet,
        0 <= k < s.len(),
        s[k].wallet == wallet,
    ensures
        has_staker(s, wallet),
        staker_index(s, wallet) == k,
{
    assert(has_staker(s, wallet));
    let j = staker_index(s, wallet);
    if j < k {
        assert(s[j].wallet != s[k].wallet);
    } else if j > k {
        assert(s[k].wallet != s[j].wallet);
    }
}

// ----- laws -----

/// Unstaking right after staking is refused with `MinDurationNotMet` when
/// the pool has a non-zero minimum stake duration, and succeeds once that
/// duration has elapsed.
pub proof fn lemma_unstake_right_after_stake(v: LedgerView, asset: Address, wallet: Address, now: u64, verdict: NFTCriteria, later: u64)
    requires
        v.wf(),
        stake_spec(v, asset, wallet, now, verdict) is Ok,
        v.pool.min_stake_duration is Some,
        v.pool.min_stake_duration->Some_0 > 0,
    ensures
        ({
            let n = stake_spec(v, asset, wallet, now, verdict)->Ok_0.0;
            &&& unstake_spec(n, asset, wallet, now) == Err::<(LedgerView, LockType), HplNectarStakingError>(HplNectarStakingError::MinDurationNotMet)
            &&& later >= now + v.pool.min_stake_duration->Some_0 ==> unstake_spec(n, asset, wallet, later) is Ok
        }),
{
    let n = stake_spec(v, asset, wallet, now, verdict)->Ok_0.0;
    lemma_stake_wf(v, asset, wallet, now, verdict);
    let s = v.positions;
    let j = if has_position(s, asset) { position_index(s, asset) } else { s.len() as int };
    if has_position(s, asset) {
        assert(!is_staked(s[j]));
    }
    assert(n.positions[j].mint == asset);
    lemma_position_index(n.positions, asset, j);
}

/// Unstaking is refused with `AssetInUse` while the asset is reserved, and
/// once the reservation is cleared, with all else equal, it succeeds unless
/// the minimum stake duration is still pending.
pub proof fn lemma_unstake_waits_for_release(v: LedgerView, asset: Address, wallet: Address, now: u64)
    requires
        v.wf(),
        position_of(v, asset) is Some,
        position_of(v, asset)->Some_0.staker == Some(wallet),
        position_of(v, asset)->Some_0.used_by != NFTUsedBy::Free,
    ensures
        unstake_spec(v, asset, wallet, now) == Err::<(LedgerView, LockType), HplNectarStakingError>(HplNectarStakingError::AssetInUse),
        use_nft_spec(v, asset, NFTUsedBy::Free) is Ok,
        unstake_spec(use_nft_spec(v, asset, NFTUsedBy::Free)->Ok_0, asset, wallet, now) is Ok
            <==> !min_duration_pending(v.pool, position_of(v, asset)->Some_0, now),
{
    let c = use_nft_spec(v, asset, NFTUsedBy::Free)->Ok_0;
    lemma_use_nft_wf(v, asset, NFTUsedBy::Free);
    let i = position_index(v.positions, asset);
    assert(c.positions[i].mint == asset);
    lemma_position_index(c.positions, asset, i);
}

/// A claim made before one reward unit has elapsed pays nothing and leaves
/// the state, and so the accrual clock, unchanged (or is refused, which
/// changes nothing either).
pub proof fn lemma_early_claim_pays_nothing(v: LedgerView, asset: Address, wallet: Address, now: u64)
    requires
        position_of(v, asset) is Some,
        elapsed_since(position_of(v, asset)->Some_0.last_claim, now) < v.pool.rewards_duration,
    ensures
        claim_spec(v, asset, wallet, now) is Ok ==> claim_spec(v, asset, wallet, now) == Ok::<(LedgerView, u64), HplNectarStakingError>((v, 0u64)),
{
}

/// A claim made after more than `max_rewards_duration` pays for exactly
/// `max_rewards_duration` seconds, and a non-zero payment moves the
/// accrual clock to `now`: the excess time is forfeited.
pub proof fn lemma_claim_caps_elapsed(v: LedgerView, asset: Address, wallet: Address, now: u64)
    requires
        v.wf(),
        position_of(v, asset) is Some,
        position_of(v, asset)->Some_0.staker == Some(wallet),
        v.pool.max_rewards_duration is Some,
        elapsed_since(position_of(v, asset)->Some_0.last_claim, now) > v.pool.max_rewards_duration->Some_0,
        elapsed_since(position_of(v, asset)->Some_0.last_claim, now) >= v.pool.rewards_duration,
    ensures
        ({
            let p = position_of(v, asset)->Some_0;
            let elapsed = elapsed_since(p.last_claim, now);
            &&& base_reward(v.pool, elapsed) == (v.pool.rewards_per_duration / v.pool.rewards_duration) * v.pool.max_rewards_duration->Some_0
            &&& claim_spec(v, asset, wallet, now) is Ok ==> {
                let (n, amount) = claim_spec(v, asset, wallet, now)->Ok_0;
                &&& amount == reward_amount(v.pool, v.multipliers, p.criteria, v.staker_count(wallet), elapsed)
                &&& amount > 0 ==> position_of(n, asset)->Some_0.last_claim == now
            }
        }),
{
    let i = position_index(v.positions, asset);
    let p = v.positions[i];
    let elapsed = elapsed_since(p.last_claim, now);
    let count = v.staker_count(wallet);
    if reward_fits(v.pool, v.multipliers, p.criteria, count, elapsed) {
        lemma_pow10_bound(v.multipliers.decimals as nat);
        let b = base_reward(v.pool, elapsed);
        let t = total_multiplier(v.multipliers, p.criteria, count, elapsed);
        let sc = v.multipliers.scale as int;
        let rate = (v.pool.rewards_per_duration / v.pool.rewards_duration) as int;
        let capped = capped_elapsed(v.pool, elapsed) as int;
        assert(b >= 0) by (nonlinear_arith)
            requires
                b == rate * capped,
                rate >= 0,
                capped >= 0,
        ;
        assert((b * t) / sc <= b * t) by (nonlinear_arith)
            requires
                b >= 0,
                t >= 0,
                sc >= 1,
        ;
        assert((b * t) / sc >= 0) by (nonlinear_arith)
            requires
                b >= 0,
                t >= 0,
                sc >= 1,
        ;
    }
    if claim_spec(v, asset, wallet, now) is Ok {
        let n = claim_spec(v, asset, wallet, now)->Ok_0.0;
        lemma_claim_wf(v, asset, wallet, now);
        assert(n.positions[i].mint == asset);
        lemma_position_index(n.positions, asset, i);
    }
}

/// One step of a run of stakes and unstakes.
pub enum LedgerOp {
    Stake { asset: Address, wallet: Address, now: u64, verdict: NFTCriteria },
    Unstake { asset: Address, wallet: Address, now: u64 },
}

/// The state after one operation (unchanged when it is refused).
pub open spec fn apply_op(v: LedgerView, op: LedgerOp) -> LedgerView {
    match op {
        LedgerOp::Stake { asset, wallet, now, verdict } => match stake_spec(v, asset, wallet, now, verdict) {
            Ok((n, _)) => n,
            Err(_) => v,
        },
        LedgerOp::Unstake { asset, wallet, now } => match unstake_spec(v, asset, wallet, now) {
            Ok((n, _)) => n,
            Err(_) => v,
        },
    }
}

/// The state after a run of operations.
pub open spec fn run_ops(v: LedgerView, ops: Seq<LedgerOp>) -> LedgerView
    decreases ops.len(),
{
    if ops.len() == 0 {
        v
    } else {
        run_ops(apply_op(v, ops[0]), ops.drop_first())
    }
}

/// After any run of stakes and unstakes, the pool's counter equals the
/// number of staked positions, each staker's counter equals the number of
/// positions it has staked, and a wallet without a record has none staked.
pub proof fn lemma_counters_track_positions(v: LedgerView, ops: Seq<LedgerOp>)
    requires
        v.wf(),
    ensures
        ({
            let n = run_ops(v, ops);
            &&& n.wf()
            &&& n.pool.total_staked == count_staked(n.positions)
            &&& forall|k: int| 0 <= k < n.stakers.len() ==> (#[trigger] n.stakers[k]).total_staked == count_staked_by(n.positions, n.stakers[k].wallet)
            &&& forall|w: Address| !has_staker(n.stakers, w) ==> count_staked_by(n.positions, w) == 0
        }),
    decreases ops.len(),
{
    if ops.len() > 0 {
        match ops[0] {
            LedgerOp::Stake { asset, wallet, now, verdict } => {
                if stake_spec(v, asset, wallet, now, verdict) is Ok {
                    lemma_stake_wf(v, asset, wallet, now, verdict);
                }
            },
            LedgerOp::Unstake { asset, wallet, now } => {
                if unstake_spec(v, asset, wallet, now) is Ok {
                    lemma_unstake_wf(v, asset, wallet, now);
                }
            },
        }
        lemma_counters_track_positions(apply_op(v, ops[0]), ops.drop_first());
    } else {
        assert forall|w: Address| !has_staker(v.stakers, w) implies count_staked_by(v.positions, w) == 0 by {
            assert forall|i: int| 0 <= i < v.positions.len() implies (#[trigger] v.positions[i]).staker != Some(w) by {
                if v.positions[i].staker == Some(w) {
                    assert(is_staked(v.positions[i]));
                }
            }
            lemma_count_by_none(v.positions, w);
        }
    }
}

// ----- the invariant is kept -----

proof fn lemma_increment_stakers(v: LedgerView, s2: Seq<NFTv1>, wallet: Address)
    requires
        v.wf(),
        forall|w: Address| #[trigger] count_staked_by(s2, w) == count_staked_by(v.positions, w) + (if w == wallet { 1nat } else { 0nat }),
        count_staked(s2) <= u64::MAX,
    ensures
        ({
            let t = staker_incremented(v.stakers, wallet);
            &&& forall|i: int, j: int| 0 <= i < j < t.len() ==> (#[trigger] t[i]).wallet != (#[trigger] t[j]).wallet
            &&& forall|k: int| 0 <= k < t.len() ==> (#[trigger] t[k]).total_staked == count_staked_by(s2, t[k].wallet)
            &&& forall|w: Address| has_staker(v.stakers, w) ==> has_staker(t, w)
            &&& has_staker(t, wallet)
        }),
{
    let s = v.stakers;
    let t = staker_incremented(s, wallet);
    lemma_count_bound(s2, wallet);
    assert(count_staked_by(s2, wallet) == count_staked_by(v.positions, wallet) + 1);
    if has_staker(s, wallet) {
        let k = staker_index(s, wallet);
        assert forall|j: int| 0 <= j < t.len() implies (#[trigger] t[j]).total_staked == count_staked_by(s2, t[j].wallet) by {
            assert(count_staked_by(s2, t[j].wallet) == count_staked_by(v.positions, t[j].wallet) + (if t[j].wallet == wallet { 1nat } else { 0nat }));
            if j != k {
                assert(t[j] == s[j]);
                if j < k {
                    assert(s[j].wallet != s[k].wallet);
                } else {
                    assert(s[k].wallet != s[j].wallet);
                }
            }
        }
        assert forall|w: Address| has_staker(s, w) implies has_staker(t, w) by {
            let j = staker_index(s, w);
            assert(t[j].wallet == w);
        }
        assert(t[k].wallet == wallet);
    } else {
        assert forall|i: int| 0 <= i < v.positions.len() implies (#[trigger] v.positions[i]).staker != Some(wallet) by {
            if v.positions[i].staker == Some(wallet) {
                assert(is_staked(v.positions[i]));
            }
        }
        lemma_count_by_none(v.positions, wallet);
        assert forall|j: int| 0 <= j < t.len() implies (#[trigger] t[j]).total_staked == count_staked_by(s2, t[j].wallet) by {
            assert(count_staked_by(s2, t[j].wallet) == count_staked_by(v.positions, t[j].wallet) + (if t[j].wallet == wallet { 1nat } else { 0nat }));
            if j < s.len() {
                assert(t[j] == s[j]);
                assert(s[j].wallet != wallet);
            }
        }
        assert forall|i: int, j: int| 0 <= i < j < t.len() implies (#[trigger] t[i]).wallet != (#[trigger] t[j]).wallet by {
            if j == s.len() {
                assert(t[i] == s[i]);
            }
        }
        assert forall|w: Address| has_staker(s, w) implies has_staker(t, w) by {
            let j = staker_index(s, w);
            assert(t[j].wallet == w);
        }
        assert(t[s.len() as int].wallet == wallet);
    }
}

proof fn lemma_decrement_stakers(v: LedgerView, s2: Seq<NFTv1>, wallet: Address)
    requires
        v.wf(),
        has_staker(v.stakers, wallet),
        forall|w: Address| #[trigger] count_staked_by(v.positions, w) == count_staked_by(s2, w) + (if w == wallet { 1nat } else { 0nat }),
    ensures
        ({
            let t = staker_decremented(v.stakers, wallet);
            &&& forall|i: int, j: int| 0 <= i < j < t.len() ==> (#[trigger] t[i]).wallet != (#[trigger] t[j]).wallet
            &&& forall|k: int| 0 <= k < t.len() ==> (#[trigger] t[k]).total_staked == count_staked_by(s2, t[k].wallet)
            &&& forall|w: Address| has_staker(v.stakers, w) ==> has_staker(t, w)
        }),
{
    let s = v.stakers;
    let t = staker_decremented(s, wallet);
    let k = staker_index(s, wallet);
    assert(count_staked_by(v.positions, wallet) == count_staked_by(s2, wallet) + 1);
    assert forall|j: int| 0 <= j < t.len() implies (#[trigger] t[j]).total_staked == count_staked_by(s2, t[j].wallet) by {
        assert(count_staked_by(v.positions, t[j].wallet) == count_staked_by(s2, t[j].wallet) + (if t[j].wallet == wallet { 1nat } else { 0nat }));
        if j != k {
            assert(t[j] == s[j]);
            if j < k {
                assert(s[j].wallet != s[k].wallet);
            } else {
                assert(s[k].wallet != s[j].wallet);
            }
        }
    }
    assert forall|w: Address| has_staker(s, w) implies has_staker(t, w) by {
        let j = staker_index(s, w);
        assert(t[j].wallet == w);
    }
}

/// A successful `Stake` keeps the invariant.
pub proof fn lemma_stake_wf(v: LedgerView, asset: Address, wallet: Address, now: u64, verdict: NFTCriteria)
    requires
        v.wf(),
        stake_spec(v, asset, wallet, now, verdict) is Ok,
    ensures
        stake_spec(v, asset, wallet, now, verdict)->Ok_0.0.wf(),
{
    let n = stake_spec(v, asset, wallet, now, verdict)->Ok_0.0;
    let s = v.positions;
    let s2 = n.positions;
    if has_position(s, asset) {
        let i = position_index(s, asset);
        let x = restake(v.pool, s[i], wallet, now);
        lemma_count_update(s, i, x);
        assert forall|w: Address| #[trigger] count_staked_by(s2, w) == count_staked_by(s, w) + (if w == wallet { 1nat } else { 0nat }) by {
            assert(count_staked_by(s2, w) == count_staked_by(s, w) - staked_by_ind(s[i], w) + staked_by_ind(x, w));
        }
        lemma_increment_stakers(v, s2, wallet);
        assert forall|a: int, b: int| 0 <= a < b < s2.len() implies (#[trigger] s2[a]).mint != (#[trigger] s2[b]).mint by {
            assert(s[a].mint != s[b].mint);
        }
        assert forall|j: int| 0 <= j < s2.len() && is_staked(#[trigger] s2[j]) implies has_staker(n.stakers, s2[j].staker->Some_0) by {
            if j != i {
                assert(s2[j] == s[j]);
            }
        }
        assert forall|j: int| 0 <= j < s2.len() && !is_staked(#[trigger] s2[j]) implies s2[j].used_by == NFTUsedBy::Free by {
            if j != i {
                assert(s2[j] == s[j]);
            }
        }
    } else {
        let x = first_stake(asset, wallet, now, verdict);
        lemma_count_push(s, x);
        assert forall|w: Address| #[trigger] count_staked_by(s2, w) == count_staked_by(s, w) + (if w == wallet { 1nat } else { 0nat }) by {
            assert(count_staked_by(s2, w) == count_staked_by(s, w) + staked_by_ind(x, w));
        }
        lemma_increment_stakers(v, s2, wallet);
        assert forall|a: int, b: int| 0 <= a < b < s2.len() implies (#[trigger] s2[a]).mint != (#[trigger] s2[b]).mint by {
            if b == s.len() {
                assert(s2[a] == s[a]);
                assert(s[a].mint != asset);
            } else {
                assert(s[a].mint != s[b].mint);
            }
        }
        assert forall|j: int| 0 <= j < s2.len() && is_staked(#[trigger] s2[j]) implies has_staker(n.stakers, s2[j].staker->Some_0) by {
            if j < s.len() {
                assert(s2[j] == s[j]);
            }
        }
        assert forall|j: int| 0 <= j < s2.len() && !is_staked(#[trigger] s2[j]) implies s2[j].used_by == NFTUsedBy::Free by {
            if j < s.len() {
                assert(s2[j] == s[j]);
            }
        }
    }
}

/// A successful `Unstake` keeps the invariant.
pub proof fn lemma_unstake_wf(v: LedgerView, asset: Address, wallet: Address, now: u64)
    requires
        v.wf(),
        unstake_spec(v, asset, wallet, now) is Ok,
    ensures
        unstake_spec(v, asset, wallet, now)->Ok_0.0.wf(),
{
    let n = unstake_spec(v, asset, wallet, now)->Ok_0.0;
    let s = v.positions;
    let s2 = n.positions;
    let i = position_index(s, asset);
    let p = s[i];
    let x = NFTv1 { staker: None, last_unstaked_at: Some(now), ..p };
    lemma_count_update(s, i, x);
    lemma_count_positive(s, i);
    assert(has_staker(v.stakers, wallet));
    assert forall|w: Address| #[trigger] count_staked_by(s, w) == count_staked_by(s2, w) + (if w == wallet { 1nat } else { 0nat }) by {
        assert(count_staked_by(s2, w) == count_staked_by(s, w) - staked_by_ind(s[i], w) + staked_by_ind(x, w));
    }
    lemma_decrement_stakers(v, s2, wallet);
    assert forall|a: int, b: int| 0 <= a < b < s2.len() implies (#[trigger] s2[a]).mint != (#[trigger] s2[b]).mint by {
        assert(s[a].mint != s[b].mint);
    }
    assert forall|j: int| 0 <= j < s2.len() && is_staked(#[trigger] s2[j]) implies has_staker(n.stakers, s2[j].staker->Some_0) by {
        assert(s2[j] == s[j]);
    }
    assert forall|j: int| 0 <= j < s2.len() && !is_staked(#[trigger] s2[j]) implies s2[j].used_by == NFTUsedBy::Free by {
        if j != i {
            assert(s2[j] == s[j]);
        }
    }
}

/// A successful `ClaimRewards` keeps the invariant.
pub proof fn lemma_claim_wf(v: LedgerView, asset: Address, wallet: Address, now: u64)
    requires
        v.wf(),
        claim_spec(v, asset, wallet, now) is Ok,
    ensures
        claim_spec(v, asset, wallet, now)->Ok_0.0.wf(),
{
    let n = claim_spec(v, asset, wallet, now)->Ok_0.0;
    let s = v.positions;
    let s2 = n.positions;
    let i = position_index(s, asset);
    if s2 != s {
        let x = NFTv1 { last_claim: now, ..s[i] };
        lemma_count_update(s, i, x);
        assert forall|w: Address| #[trigger] count_staked_by(s2, w) == count_staked_by(s, w) by {
            assert(count_staked_by(s2, w) == count_staked_by(s, w) - staked_by_ind(s[i], w) + staked_by_ind(x, w));
        }
        assert forall|a: int, b: int| 0 <= a < b < s2.len() implies (#[trigger] s2[a]).mint != (#[trigger] s2[b]).mint by {
            assert(s[a].mint != s[b].mint);
        }
        assert forall|j: int| 0 <= j < s2.len() && is_staked(#[trigger] s2[j]) implies has_staker(n.stakers, s2[j].staker->Some_0) by {
            assert(s2[j].staker == s[j].staker);
        }
        assert forall|j: int| 0 <= j < s2.len() && !is_staked(#[trigger] s2[j]) implies s2[j].used_by == NFTUsedBy::Free by {
            assert(s2[j].used_by == s[j].used_by);
        }
    }
}

/// A successful reservation change keeps the invariant.
pub proof fn lemma_use_nft_wf(v: LedgerView, asset: Address, used_by: NFTUsedBy)
    requires
        v.wf(),
        use_nft_spec(v, asset, used_by) is Ok,
    ensures
        use_nft_spec(v, asset, used_by)->Ok_0.wf(),
{
    let n = use_nft_spec(v, asset, used_by)->Ok_0;
    let s = v.positions;
    let s2 = n.positions;
    let i = position_index(s, asset);
    let x = NFTv1 { used_by, ..s[i] };
    lemma_count_update(s, i, x);
    assert forall|w: Address| #[trigger] count_staked_by(s2, w) == count_staked_by(s, w) by {
        assert(count_staked_by(s2, w) == count_staked_by(s, w) - staked_by_ind(s[i], w) + staked_by_ind(x, w));
    }
    assert forall|a: int, b: int| 0 <= a < b < s2.len() implies (#[trigger] s2[a]).mint != (#[trigger] s2[b]).mint by {
        assert(s[a].mint != s[b].mint);
    }
    assert forall|j: int| 0 <= j < s2.len() && is_staked(#[trigger] s2[j]) implies has_staker(n.stakers, s2[j].staker->Some_0) by {
        assert(s2[j].staker == s[j].staker);
    }
    assert forall|j: int| 0 <= j < s2.len() && !is_staked(#[trigger] s2[j]) implies s2[j].used_by == NFTUsedBy::Free by {
        if j != i {
            assert(s2[j] == s[j]);
        }
    }
}

} // verus!
