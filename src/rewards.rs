//! The reward engine: elapsed time, rate and composed multiplier to a
//! payable amount, with every overflow reported.

use vstd::prelude::*;
use crate::error::HplNectarStakingError;
use crate::multiplier::{Multipliers, MultipliersView};
use crate::nft::NFTCriteria;
use crate::pool::StakingPool;

verus! {

/// Seconds from `last` to `now`; a reading of `now` before `last` counts as
/// no time at all.
pub open spec fn elapsed_since(last: u64, now: u64) -> u64 {
    if now >= last {
        (now - last) as u64
    } else {
        0
    }
}

/// The elapsed time that a claim pays for: at most `max_rewards_duration`.
pub open spec fn capped_elapsed(pool: StakingPool, elapsed: u64) -> u64 {
    match pool.max_rewards_duration {
        Some(m) => if m < elapsed { m } else { elapsed },
        None => elapsed,
    }
}

/// The reward before multipliers: the per-second rate, rounded down, times
/// the capped elapsed time.
pub open spec fn base_reward(pool: StakingPool, elapsed: u64) -> int {
    (pool.rewards_per_duration / pool.rewards_duration) as int * capped_elapsed(pool, elapsed) as int
}

pub open spec fn creator_axis(t: MultipliersView, criteria: NFTCriteria) -> u64 {
    match criteria {
        NFTCriteria::Creator { address } => t.creator_value(address),
        _ => t.scale,
    }
}

pub open spec fn collection_axis(t: MultipliersView, criteria: NFTCriteria) -> u64 {
    match criteria {
        NFTCriteria::Collection { address } => t.collection_value(address),
        _ => t.scale,
    }
}

/// The scale plus each axis value's excess over it (negative for a value
/// below the scale).
pub open spec fn composed(scale: u64, duration: u64, count: u64, creator: u64, collection: u64) -> int {
    scale as int + (duration - scale) + (count - scale) + (creator - scale) + (collection - scale)
}

/// The composed multiplier of an asset.
pub open spec fn total_multiplier(t: MultipliersView, criteria: NFTCriteria, staked_count: u64, elapsed: u64) -> int {
    composed(
        t.scale,
        t.duration_value(elapsed),
        t.count_value(staked_count),
        creator_axis(t, criteria),
        collection_axis(t, criteria),
    )
}

/// Composes four axis values over `scale`: the scale plus each value's
/// excess over it. `None` when the result is negative or does not fit in a
/// `u64`.
pub fn compose_multipliers(scale: u64, duration: u64, count: u64, creator: u64, collection: u64) -> (r: Option<u64>)
    ensures
        0 <= composed(scale, duration, count, creator, collection) <= u64::MAX ==> r == Some(
            composed(scale, duration, count, creator, collection) as u64,
        ),
        !(0 <= composed(scale, duration, count, creator, collection) <= u64::MAX) ==> r is None,
{
    let s = scale as i128;
    let total: i128 = s + (duration as i128 - s) + (count as i128 - s) + (creator as i128 - s) + (collection as i128 - s);
    if total < 0 || total > u64::MAX as i128 {
        None
    } else {
        Some(total as u64)
    }
}

/// The base reward, the composed multiplier and their product all fit in a
/// `u64`, and the multiplier is not negative.
pub open spec fn reward_fits(pool: StakingPool, t: MultipliersView, criteria: NFTCriteria, staked_count: u64, elapsed: u64) -> bool {
    let base = base_reward(pool, elapsed);
    let total = total_multiplier(t, criteria, staked_count, elapsed);
    &&& base <= u64::MAX
    &&& 0 <= total <= u64::MAX
    &&& base * total <= u64::MAX
}

/// The payable amount: base reward times the composed multiplier, divided
/// by the scale.
pub open spec fn reward_amount(pool: StakingPool, t: MultipliersView, criteria: NFTCriteria, staked_count: u64, elapsed: u64) -> int {
    base_reward(pool, elapsed) * total_multiplier(t, criteria, staked_count, elapsed) / (t.scale as int)
}

/// The reward for `elapsed` seconds of an asset with classification
/// `criteria`, held by a staker with `staked_count` staked assets: the
/// payable amount and the composed multiplier. The duration axis reads the
/// uncapped elapsed time; the base reward the capped one. Refused with
/// `ArithmeticOverflow` when an intermediate value does not fit.
pub fn calculate_rewards(
    pool: &StakingPool,
    multipliers: &Multipliers,
    criteria: NFTCriteria,
    staked_count: u64,
    elapsed: u64,
) -> (r: Result<(u64, u64), HplNectarStakingError>)
    requires
        pool.rewards_duration >= 1,
        multipliers@.scale >= 1,
    ensures
        reward_fits(*pool, multipliers@, criteria, staked_count, elapsed) ==> r == Ok::<(u64, u64), HplNectarStakingError>((
            reward_amount(*pool, multipliers@, criteria, staked_count, elapsed) as u64,
            total_multiplier(multipliers@, criteria, staked_count, elapsed) as u64,
        )),
        !reward_fits(*pool, multipliers@, criteria, staked_count, elapsed) ==> r == Err::<(u64, u64), HplNectarStakingError>(
            HplNectarStakingError::ArithmeticOverflow,
        ),
{
    let per_second: u64 = pool.rewards_per_duration / pool.rewards_duration;
    let capped: u64 = match pool.max_rewards_duration {
        Some(m) => if m < elapsed { m } else { elapsed },
        None => elapsed,
    };
    assert((per_second as int) * (capped as int) <= (u64::MAX as int) * (u64::MAX as int)) by (nonlinear_arith)
        requires
            per_second <= u64::MAX,
            capped <= u64::MAX,
    ;
    let base: u128 = (per_second as u128) * (capped as u128);

    let scale = multipliers.scale();
    let creator = match criteria {
        NFTCriteria::Creator { address } => multipliers.creator_value(address),
        _ => scale,
    };
    let collection = match criteria {
        NFTCriteria::Collection { address } => multipliers.collection_value(address),
        _ => scale,
    };
    let total = match compose_multipliers(
        scale,
        multipliers.duration_value(elapsed),
        multipliers.count_value(staked_count),
        creator,
        collection,
    ) {
        Some(t) => t,
        None => return Err(HplNectarStakingError::ArithmeticOverflow),
    };
    if base > u64::MAX as u128 {
        return Err(HplNectarStakingError::ArithmeticOverflow);
    }
    let total_u: u128 = total as u128;
    assert((base as int) * (total_u as int) <= (u64::MAX as int) * (u64::MAX as int)) by (nonlinear_arith)
        requires
            base <= u64::MAX,
            total_u <= u64::MAX,
    ;
    let product: u128 = base * total_u;
    if product > u64::MAX as u128 {
        return Err(HplNectarStakingError::ArithmeticOverflow);
    }
    let amount: u128 = product / (scale as u128);
    assert(amount <= product) by (nonlinear_arith)
        requires
            amount == product / (scale as u128),
            scale >= 1,
    ;
    Ok((amount as u64, total))
}

} // verus!
