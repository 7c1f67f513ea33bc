//! Reward accrual and custody lifecycle for an asset-staking pool.
//!
//! Participants lock a uniquely identified asset into a pool and accrue a
//! time-denominated reward, modulated by multiplier tiers on four axes
//! (stake duration, staked count, creator, collection).

pub mod address;
pub mod error;
pub mod multiplier;
pub mod nft;
pub mod pool;
pub mod rewards;
pub mod ledger;
pub mod controller;

pub use address::Address;
pub use controller::PoolController;
pub use error::HplNectarStakingError;
pub use multiplier::{Multiplier, MultiplierAxis, MultiplierType, Multipliers};
pub use nft::{NFTCriteria, NFTUsedBy, NFTv1, Staker};
pub use pool::{CreateStakingPoolArgs, LockType, StakingPool, UpdateStakingPoolArgs};
pub use rewards::{calculate_rewards, compose_multipliers};
