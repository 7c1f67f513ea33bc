//! The refusals of the staking pool.

use vstd::prelude::*;

verus! {

/// Why an operation of the staking pool was refused. Every refusal leaves
/// all records exactly as they were.
#[derive(Clone, Copy, Debug, PartialEq, Eq, Structural)]
pub enum HplNectarStakingError {
    /// The eligibility verdict matches none of the pool's accepted criteria.
    NotEligible,
    /// The asset was unstaked too recently to be staked again.
    CooldownActive,
    /// The asset has not been staked for the pool's minimum duration yet.
    MinDurationNotMet,
    /// The asset is reserved by another service.
    AssetInUse,
    /// Less than one reward unit has elapsed since the last accrual
    /// (only for pools that reject early claims).
    RewardsNotYetAvailable,
    /// A reward computation does not fit the integer types.
    ArithmeticOverflow,
    /// A multiplier tier does not fit the axis, or the fixed-point base is too large.
    MultiplierConfigInvalid,
    /// A pool configuration has a zero rate or a zero duration.
    InvalidPoolConfig,
    /// The asset has no position in the pool, or it is not staked.
    NotStaked,
    /// The asset is already staked.
    AlreadyStaked,
    /// The asset is staked by another wallet.
    StakerMismatch,
}

} // verus!
