use nectar_staking::{
    Address, CreateStakingPoolArgs, HplNectarStakingError, LockType, NFTCriteria, NFTUsedBy, PoolController,
    UpdateStakingPoolArgs,
};

fn addr(b: u8) -> Address {
    Address::new([b; 32])
}

fn args(rate: u64, unit: u64) -> CreateStakingPoolArgs {
    CreateStakingPoolArgs {
        lock_type: None,
        rewards_per_duration: rate,
        rewards_duration: Some(unit),
        max_rewards_duration: None,
        min_stake_duration: None,
        cooldown_duration: None,
        reset_stake_duration: None,
        reject_early_claims: None,
    }
}

fn collection() -> NFTCriteria {
    NFTCriteria::Collection { address: addr(200) }
}

fn pool_with(a: CreateStakingPoolArgs) -> PoolController {
    let mut c = PoolController::new(addr(1), a).unwrap();
    c.add_criteria(collection()).unwrap();
    c
}

#[test]
fn create_pool_applies_defaults() {
    let c = PoolController::new(addr(1), CreateStakingPoolArgs { rewards_duration: None, ..args(5, 1) }).unwrap();
    let p = c.pool();
    assert_eq!(p.lock_type, LockType::Freeze);
    assert_eq!(p.rewards_duration, 1);
    assert!(p.reset_stake_duration);
    assert!(!p.reject_early_claims);
    assert_eq!(p.total_staked, 0);
    assert_eq!(c.multipliers().scale(), 1);
}

#[test]
fn create_pool_rejects_invalid_config() {
    assert_eq!(PoolController::new(addr(1), args(0, 10)).err(), Some(HplNectarStakingError::InvalidPoolConfig));
    assert_eq!(PoolController::new(addr(1), args(10, 0)).err(), Some(HplNectarStakingError::InvalidPoolConfig));
    let capped_zero = CreateStakingPoolArgs { max_rewards_duration: Some(0), ..args(10, 10) };
    assert_eq!(PoolController::new(addr(1), capped_zero).err(), Some(HplNectarStakingError::InvalidPoolConfig));
}

#[test]
fn update_pool_keeps_unset_values() {
    let mut c = pool_with(args(100, 10));
    let none = UpdateStakingPoolArgs {
        rewards_per_duration: None,
        rewards_duration: None,
        max_rewards_duration: None,
        min_stake_duration: None,
        cooldown_duration: None,
        reset_stake_duration: None,
        reject_early_claims: None,
    };
    c.update_staking_pool(UpdateStakingPoolArgs { rewards_per_duration: Some(7), cooldown_duration: Some(3), ..none }).unwrap();
    assert_eq!(c.pool().rewards_per_duration, 7);
    assert_eq!(c.pool().rewards_duration, 10);
    assert_eq!(c.pool().cooldown_duration, Some(3));
    assert_eq!(
        c.update_staking_pool(UpdateStakingPoolArgs { rewards_duration: Some(0), ..none }),
        Err(HplNectarStakingError::InvalidPoolConfig)
    );
    assert_eq!(c.pool().rewards_duration, 10);
}

#[test]
fn stake_creates_position_and_counts() {
    let mut c = pool_with(args(100, 10));
    assert_eq!(c.stake(addr(10), addr(20), 1000, collection()), Ok(LockType::Freeze));
    let p = c.position(addr(10)).unwrap();
    assert_eq!(p.staker, Some(addr(20)));
    assert_eq!(p.last_claim, 1000);
    assert_eq!(p.staked_at, 1000);
    assert_eq!(p.last_staked_at, 1000);
    assert_eq!(p.criteria, collection());
    assert_eq!(p.used_by, NFTUsedBy::Free);
    assert_eq!(c.pool().total_staked, 1);
    assert_eq!(c.staker(addr(20)).unwrap().total_staked, 1);
}

#[test]
fn stake_custody_pool_returns_custody() {
    let mut c = pool_with(CreateStakingPoolArgs { lock_type: Some(LockType::Custody), ..args(100, 10) });
    assert_eq!(c.stake(addr(10), addr(20), 1000, collection()), Ok(LockType::Custody));
    assert_eq!(c.unstake(addr(10), addr(20), 1001), Ok(LockType::Custody));
}

#[test]
fn stake_rejects_ineligible_asset() {
    let mut c = pool_with(args(100, 10));
    assert_eq!(c.stake(addr(10), addr(20), 1000, NFTCriteria::Unclassified), Err(HplNectarStakingError::NotEligible));
    let other = NFTCriteria::Creator { address: addr(99) };
    assert_eq!(c.stake(addr(10), addr(20), 1000, other), Err(HplNectarStakingError::NotEligible));
    assert!(c.position(addr(10)).is_none());
    assert_eq!(c.pool().total_staked, 0);
}

#[test]
fn stake_twice_is_refused() {
    let mut c = pool_with(args(100, 10));
    c.stake(addr(10), addr(20), 1000, collection()).unwrap();
    assert_eq!(c.stake(addr(10), addr(21), 1001, collection()), Err(HplNectarStakingError::AlreadyStaked));
    assert_eq!(c.pool().total_staked, 1);
}

#[test]
fn cooldown_blocks_restake() {
    let mut c = pool_with(CreateStakingPoolArgs { cooldown_duration: Some(50), ..args(100, 10) });
    c.stake(addr(10), addr(20), 1000, collection()).unwrap();
    c.unstake(addr(10), addr(20), 1100).unwrap();
    assert_eq!(c.stake(addr(10), addr(20), 1149, collection()), Err(HplNectarStakingError::CooldownActive));
    assert_eq!(c.stake(addr(10), addr(20), 1150, collection()), Ok(LockType::Freeze));
}

#[test]
fn unstake_immediately_after_stake_fails_until_min_duration() {
    let mut c = pool_with(CreateStakingPoolArgs { min_stake_duration: Some(100), ..args(100, 10) });
    c.stake(addr(10), addr(20), 1000, collection()).unwrap();
    assert_eq!(c.unstake(addr(10), addr(20), 1000), Err(HplNectarStakingError::MinDurationNotMet));
    assert_eq!(c.unstake(addr(10), addr(20), 1099), Err(HplNectarStakingError::MinDurationNotMet));
    assert_eq!(c.unstake(addr(10), addr(20), 1100), Ok(LockType::Freeze));
}

#[test]
fn unstake_without_min_duration_succeeds_at_once() {
    let mut c = pool_with(args(100, 10));
    c.stake(addr(10), addr(20), 1000, collection()).unwrap();
    assert_eq!(c.unstake(addr(10), addr(20), 1000), Ok(LockType::Freeze));
}

#[test]
fn unstake_blocked_while_in_use() {
    let mut c = pool_with(args(100, 10));
    c.stake(addr(10), addr(20), 1000, collection()).unwrap();
    c.use_nft(addr(10), NFTUsedBy::Missions).unwrap();
    assert_eq!(c.unstake(addr(10), addr(20), 2000), Err(HplNectarStakingError::AssetInUse));
    assert_eq!(c.position(addr(10)).unwrap().staker, Some(addr(20)));
    c.use_nft(addr(10), NFTUsedBy::Free).unwrap();
    assert_eq!(c.unstake(addr(10), addr(20), 2000), Ok(LockType::Freeze));
}

#[test]
fn use_nft_requires_staked_asset() {
    let mut c = pool_with(args(100, 10));
    assert_eq!(c.use_nft(addr(10), NFTUsedBy::Missions), Err(HplNectarStakingError::NotStaked));
}

#[test]
fn unstake_by_other_wallet_is_refused() {
    let mut c = pool_with(args(100, 10));
    c.stake(addr(10), addr(20), 1000, collection()).unwrap();
    assert_eq!(c.unstake(addr(10), addr(21), 2000), Err(HplNectarStakingError::StakerMismatch));
    assert_eq!(c.unstake(addr(11), addr(20), 2000), Err(HplNectarStakingError::NotStaked));
}

#[test]
fn unstake_archives_position() {
    let mut c = pool_with(args(100, 10));
    c.stake(addr(10), addr(20), 1000, collection()).unwrap();
    c.unstake(addr(10), addr(20), 1500).unwrap();
    let p = c.position(addr(10)).unwrap();
    assert_eq!(p.staker, None);
    assert_eq!(p.last_unstaked_at, Some(1500));
    assert_eq!(c.pool().total_staked, 0);
    assert_eq!(c.staker(addr(20)).unwrap().total_staked, 0);
    assert_eq!(c.unstake(addr(10), addr(20), 1600), Err(HplNectarStakingError::NotStaked));
}

#[test]
fn restake_without_reset_keeps_clocks() {
    let mut c = pool_with(CreateStakingPoolArgs { reset_stake_duration: Some(false), ..args(100, 10) });
    c.stake(addr(10), addr(20), 1000, collection()).unwrap();
    c.unstake(addr(10), addr(20), 1500).unwrap();
    c.stake(addr(10), addr(20), 2000, collection()).unwrap();
    let p = c.position(addr(10)).unwrap();
    assert_eq!(p.staked_at, 1000);
    assert_eq!(p.last_claim, 1000);
    assert_eq!(p.last_staked_at, 2000);
}

#[test]
fn restake_with_reset_restarts_clocks() {
    let mut c = pool_with(args(100, 10));
    c.stake(addr(10), addr(20), 1000, collection()).unwrap();
    c.unstake(addr(10), addr(20), 1500).unwrap();
    c.stake(addr(10), addr(21), 2000, collection()).unwrap();
    let p = c.position(addr(10)).unwrap();
    assert_eq!(p.staked_at, 2000);
    assert_eq!(p.last_claim, 2000);
    assert_eq!(p.staker, Some(addr(21)));
}

#[test]
fn counters_track_staked_positions() {
    let mut c = pool_with(args(100, 10));
    c.stake(addr(10), addr(20), 1000, collection()).unwrap();
    c.stake(addr(11), addr(20), 1000, collection()).unwrap();
    c.stake(addr(12), addr(21), 1000, collection()).unwrap();
    assert_eq!(c.pool().total_staked, 3);
    assert_eq!(c.staker(addr(20)).unwrap().total_staked, 2);
    assert_eq!(c.staker(addr(21)).unwrap().total_staked, 1);
    c.unstake(addr(11), addr(20), 1001).unwrap();
    assert_eq!(c.unstake(addr(11), addr(20), 1002), Err(HplNectarStakingError::NotStaked));
    assert_eq!(c.pool().total_staked, 2);
    assert_eq!(c.staker(addr(20)).unwrap().total_staked, 1);
    c.stake(addr(11), addr(21), 1003, collection()).unwrap();
    assert_eq!(c.pool().total_staked, 3);
    assert_eq!(c.staker(addr(20)).unwrap().total_staked, 1);
    assert_eq!(c.staker(addr(21)).unwrap().total_staked, 2);
    for asset in [10u8, 11, 12] {
        let owner = c.position(addr(asset)).unwrap().staker.unwrap();
        c.unstake(addr(asset), owner, 2000).unwrap();
    }
    assert_eq!(c.pool().total_staked, 0);
    assert_eq!(c.staker(addr(20)).unwrap().total_staked, 0);
    assert_eq!(c.staker(addr(21)).unwrap().total_staked, 0);
}

#[test]
fn unclassified_criteria_cannot_be_accepted() {
    let mut c = PoolController::new(addr(1), args(100, 10)).unwrap();
    assert_eq!(c.add_criteria(NFTCriteria::Unclassified), Err(HplNectarStakingError::InvalidPoolConfig));
    assert!(c.criteria().is_empty());
    c.add_criteria(NFTCriteria::MerkleTree { address: addr(5) }).unwrap();
    assert_eq!(c.criteria().len(), 1);
}

#[test]
fn init_multipliers_checks_decimals() {
    let mut c = PoolController::new(addr(1), args(100, 10)).unwrap();
    assert_eq!(c.init_multipliers(20), Err(HplNectarStakingError::MultiplierConfigInvalid));
    assert_eq!(c.multipliers().scale(), 1);
    c.init_multipliers(4).unwrap();
    assert_eq!(c.multipliers().decimals(), 4);
    assert_eq!(c.multipliers().scale(), 10_000);
}

#[test]
fn registry_asset_stakes_under_its_tree() {
    let tree = NFTCriteria::MerkleTree { address: addr(5) };
    let mut c = PoolController::new(addr(1), args(100, 10)).unwrap();
    c.add_criteria(tree).unwrap();
    assert_eq!(c.stake(addr(10), addr(20), 7, tree), Ok(LockType::Freeze));
    assert_eq!(c.position(addr(10)).unwrap().criteria, tree);
}
