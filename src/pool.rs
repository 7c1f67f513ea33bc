//! The pool record: configuration and aggregate counter.

use vstd::prelude::*;
use crate::address::Address;
use crate::error::HplNectarStakingError;

verus! {

/// How a staked asset is held while staked.
#[derive(Clone, Copy, Debug, PartialEq, Eq, Structural)]
pub enum LockType {
    /// The pool is granted a transfer delegation and the asset is frozen in place.
    Freeze,
    /// The asset is moved into a pool-controlled holding account.
    Custody,
}

/// The configuration and aggregate counter of one staking pool.
#[derive(Clone, Copy, Debug)]
pub struct StakingPool {
    /// The pool's identity.
    pub key: Address,
    pub lock_type: LockType,
    /// Reward units paid per `rewards_duration` seconds.
    pub rewards_per_duration: u64,
    /// The reward unit duration in seconds; at least 1.
    pub rewards_duration: u64,
    /// The most seconds that one claim pays for.
    pub max_rewards_duration: Option<u64>,
    /// The least seconds an asset stays staked before it may be unstaked.
    pub min_stake_duration: Option<u64>,
    /// The least seconds between unstaking an asset and staking it again.
    pub cooldown_duration: Option<u64>,
    /// Whether staking again restarts the stake and accrual clocks.
    pub reset_stake_duration: bool,
    /// Whether a claim made before one reward unit has elapsed is refused with
    /// `RewardsNotYetAvailable` (when set) or succeeds paying nothing (when not).
    pub reject_early_claims: bool,
    /// The number of assets currently staked in the pool.
    pub total_staked: u64,
}

/// The settings of a new pool; absent settings take their defaults.
#[derive(Clone, Copy, Debug)]
pub struct CreateStakingPoolArgs {
    /// Defaults to `Freeze`.
    pub lock_type: Option<LockType>,
    pub rewards_per_duration: u64,
    /// Defaults to 1.
    pub rewards_duration: Option<u64>,
    pub max_rewards_duration: Option<u64>,
    pub min_stake_duration: Option<u64>,
    pub cooldown_duration: Option<u64>,
    /// Defaults to `true`.
    pub reset_stake_duration: Option<bool>,
    /// Defaults to `false`: early claims succeed and pay nothing.
    pub reject_early_claims: Option<bool>,
}

/// New values for a pool's settings; an absent value keeps the current one.
#[derive(Clone, Copy, Debug)]
pub struct UpdateStakingPoolArgs {
    pub rewards_per_duration: Option<u64>,
    pub rewards_duration: Option<u64>,
    pub max_rewards_duration: Option<u64>,
    pub min_stake_duration: Option<u64>,
    pub cooldown_duration: Option<u64>,
    pub reset_stake_duration: Option<bool>,
    pub reject_early_claims: Option<bool>,
}

/// The given value, or `d` when absent.
pub open spec fn value_or<T>(o: Option<T>, d: T) -> T {
    match o {
        Some(v) => v,
        None => d,
    }
}

/// The given setting, or the current one `d` when absent.
pub open spec fn replaced_or<T>(o: Option<T>, d: Option<T>) -> Option<T> {
    match o {
        Some(v) => Some(v),
        None => d,
    }
}

impl StakingPool {
    /// A positive rate, a positive reward unit and a positive cap, if any.
    pub open spec fn valid_config(self) -> bool {
        &&& self.rewards_per_duration >= 1
        &&& self.rewards_duration >= 1
        &&& self.max_rewards_duration != Some(0u64)
    }

    /// The pool that `create_staking_pool` describes, valid or not.
    pub open spec fn from_args(key: Address, args: CreateStakingPoolArgs) -> StakingPool {
        StakingPool {
            key,
            lock_type: value_or(args.lock_type, LockType::Freeze),
            rewards_per_duration: args.rewards_per_duration,
            rewards_duration: value_or(args.rewards_duration, 1u64),
            max_rewards_duration: args.max_rewards_duration,
            min_stake_duration: args.min_stake_duration,
            cooldown_duration: args.cooldown_duration,
            reset_stake_duration: value_or(args.reset_stake_duration, true),
            reject_early_claims: value_or(args.reject_early_claims, false),
            total_staked: 0,
        }
    }

    /// The pool with the given settings replaced, valid or not.
    pub open spec fn updated(self, args: UpdateStakingPoolArgs) -> StakingPool {
        StakingPool {
            rewards_per_duration: value_or(args.rewards_per_duration, self.rewards_per_duration),
            rewards_duration: value_or(args.rewards_duration, self.rewards_duration),
            max_rewards_duration: replaced_or(args.max_rewards_duration, self.max_rewards_duration),
            min_stake_duration: replaced_or(args.min_stake_duration, self.min_stake_duration),
            cooldown_duration: replaced_or(args.cooldown_duration, self.cooldown_duration),
            reset_stake_duration: value_or(args.reset_stake_duration, self.reset_stake_duration),
            reject_early_claims: value_or(args.reject_early_claims, self.reject_early_claims),
            ..self
        }
    }

    fn check_config(&self) -> (r: Result<(), HplNectarStakingError>)
        ensures
            self.valid_config() ==> r is Ok,
            !self.valid_config() ==> r == Err::<(), HplNectarStakingError>(HplNectarStakingError::InvalidPoolConfig),
    {
        if self.rewards_per_duration == 0 || self.rewards_duration == 0 {
            return Err(HplNectarStakingError::InvalidPoolConfig);
        }
        match self.max_rewards_duration {
            Some(m) => {
                if m == 0 {
                    return Err(HplNectarStakingError::InvalidPoolConfig);
                }
            },
            None => {},
        }
        Ok(())
    }

    /// A new pool with no staked assets, from the given settings and their
    /// defaults. Refused with `InvalidPoolConfig` when the rate, the reward
    /// unit or the cap is zero.
    pub fn create_staking_pool(key: Address, args: CreateStakingPoolArgs) -> (r: Result<StakingPool, HplNectarStakingError>)
        ensures
            StakingPool::from_args(key, args).valid_config() ==> r == Ok::<StakingPool, HplNectarStakingError>(StakingPool::from_args(key, args)),
            !StakingPool::from_args(key, args).valid_config() ==> r == Err::<StakingPool, HplNectarStakingError>(HplNectarStakingError::InvalidPoolConfig),
    {
        let pool = StakingPool {
            key,
            lock_type: match args.lock_type {
                Some(l) => l,
                None => LockType::Freeze,
            },
            rewards_per_duration: args.rewards_per_duration,
            rewards_duration: match args.rewards_duration {
                Some(d) => d,
                None => 1,
            },
            max_rewards_duration: args.max_rewards_duration,
            min_stake_duration: args.min_stake_duration,
            cooldown_duration: args.cooldown_duration,
            reset_stake_duration: match args.reset_stake_duration {
                Some(b) => b,
                None => true,
            },
            reject_early_claims: match args.reject_early_claims {
                Some(b) => b,
                None => false,
            },
            total_staked: 0,
        };
        match pool.check_config() {
            Ok(()) => Ok(pool),
            Err(e) => Err(e),
        }
    }

    /// Replaces the given settings, keeping the identity, the lock type and
    /// the counter. Refused with `InvalidPoolConfig`, and nothing changed,
    /// when the result would have a zero rate, reward unit or cap.
    pub fn update_staking_pool(&mut self, args: UpdateStakingPoolArgs) -> (r: Result<(), HplNectarStakingError>)
        ensures
            old(self).updated(args).valid_config() ==> r is Ok && *final(self) == old(self).updated(args),
            !old(self).updated(args).valid_config() ==> r == Err::<(), HplNectarStakingError>(HplNectarStakingError::InvalidPoolConfig)
                && *final(self) == *old(self),
    {
        let mut next = *self;
        if let Some(v) = args.rewards_per_duration {
            next.rewards_per_duration = v;
        }
        if let Some(v) = args.rewards_duration {
            next.rewards_duration = v;
        }
        if args.max_rewards_duration.is_some() {
            next.max_rewards_duration = args.max_rewards_duration;
        }
        if args.min_stake_duration.is_some() {
            next.min_stake_duration = args.min_stake_duration;
        }
        if args.cooldown_duration.is_some() {
            next.cooldown_duration = args.cooldown_duration;
        }
        if let Some(v) = args.reset_stake_duration {
            next.reset_stake_duration = v;
        }
        if let Some(v) = args.reject_early_claims {
            next.reject_early_claims = v;
        }
        match next.check_config() {
            Ok(()) => {
                *self = next;
                Ok(())
            },
            Err(e) => Err(e),
        }
    }
}

} // verus!
