//! Position and staker records.

use vstd::prelude::*;
use crate::address::Address;

verus! {

/// The classification under which an asset was accepted by a pool.
#[derive(Clone, Copy, Debug, PartialEq, Eq)]
pub enum NFTCriteria {
    /// Not classified yet.
    Unclassified,
    Collection { address: Address },
    Creator { address: Address },
    /// A registry-only asset, proven a member of this registry tree.
    MerkleTree { address: Address },
}

/// The reservation of a staked asset by another service.
#[derive(Clone, Copy, Debug, PartialEq, Eq, Structural)]
pub enum NFTUsedBy {
    /// The asset may be unstaked.
    Free,
    /// Reserved by the missions service.
    Missions,
}

/// The position of one asset in a pool. It is created by the first stake
/// and kept, unstaked, after an unstake.
#[derive(Clone, Copy, Debug)]
pub struct NFTv1 {
    /// The asset.
    pub mint: Address,
    /// The wallet that has the asset staked; `None` while unstaked.
    pub staker: Option<Address>,
    /// The accrual clock: rewards are paid for the time since it.
    pub last_claim: u64,
    /// When the current run of stakes began.
    pub staked_at: u64,
    /// When the asset was last staked.
    pub last_staked_at: u64,
    /// When the asset was last unstaked, if ever.
    pub last_unstaked_at: Option<u64>,
    pub criteria: NFTCriteria,
    pub used_by: NFTUsedBy,
}

/// The number of assets that one wallet has staked in a pool.
#[derive(Clone, Copy, Debug)]
pub struct Staker {
    pub wallet: Address,
    pub total_staked: u64,
}

pub fn same_criteria(a: &NFTCriteria, b: &NFTCriteria) -> (r: bool)
    ensures
        r == (*a == *b),
{
    match (a, b) {
        (NFTCriteria::Unclassified, NFTCriteria::Unclassified) => true,
        (NFTCriteria::Collection { address: x }, NFTCriteria::Collection { address: y }) => x.same(y),
        (NFTCriteria::Creator { address: x }, NFTCriteria::Creator { address: y }) => x.same(y),
        (NFTCriteria::MerkleTree { address: x }, NFTCriteria::MerkleTree { address: y }) => x.same(y),
        _ => false,
    }
}

} // verus!
