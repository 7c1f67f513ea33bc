use nectar_staking::{
    calculate_rewards, compose_multipliers, Address, CreateStakingPoolArgs, HplNectarStakingError, LockType,
    Multiplier, MultiplierAxis, MultiplierType, Multipliers, NFTCriteria, PoolController, StakingPool,
};

fn addr(b: u8) -> Address {
    Address::new([b; 32])
}

fn args(rate: u64, unit: u64) -> CreateStakingPoolArgs {
    CreateStakingPoolArgs {
        lock_type: None,
        rewards_per_duration: rate,
        rewards_duration: Some(unit),
        max_rewards_duration: None,
        min_stake_duration: None,
        cooldown_duration: None,
        reset_stake_duration: None,
        reject_early_claims: None,
    }
}

fn pool(rate: u64, unit: u64, max: Option<u64>) -> StakingPool {
    StakingPool::create_staking_pool(addr(1), CreateStakingPoolArgs { max_rewards_duration: max, ..args(rate, unit) })
        .unwrap()
}

fn staked(a: CreateStakingPoolArgs, criteria: NFTCriteria, at: u64) -> PoolController {
    let mut c = PoolController::new(addr(1), a).unwrap();
    c.add_criteria(criteria).unwrap();
    c.stake(addr(10), addr(20), at, criteria).unwrap();
    c
}

fn tier(value: u64, multiplier_type: MultiplierType) -> Multiplier {
    Multiplier { value, multiplier_type }
}

fn duration(value: u64, min_duration: u64) -> Multiplier {
    tier(value, MultiplierType::StakeDuration { min_duration })
}

fn thresholds(m: &Multipliers) -> Vec<u64> {
    m.tiers(MultiplierAxis::Duration)
        .iter()
        .map(|t| match t.multiplier_type {
            MultiplierType::StakeDuration { min_duration } => min_duration,
            _ => u64::MAX,
        })
        .collect()
}

#[test]
fn end_to_end_claim_without_tiers() {
    let mut c = staked(args(100, 10), NFTCriteria::Collection { address: addr(200) }, 1000);
    assert_eq!(c.claim_rewards(addr(10), addr(20), 1025), Ok(250));
    assert_eq!(c.position(addr(10)).unwrap().last_claim, 1025);
}

#[test]
fn calculate_rewards_without_tiers() {
    let m = Multipliers::new(0).unwrap();
    assert_eq!(calculate_rewards(&pool(100, 10, None), &m, NFTCriteria::Unclassified, 1, 25), Ok((250, 1)));
}

#[test]
fn rate_is_rounded_down_per_second() {
    let m = Multipliers::new(0).unwrap();
    assert_eq!(calculate_rewards(&pool(25, 10, None), &m, NFTCriteria::Unclassified, 1, 30), Ok((60, 1)));
}

#[test]
fn early_claim_pays_nothing_and_keeps_clock() {
    let mut c = staked(args(100, 10), NFTCriteria::Collection { address: addr(200) }, 1000);
    assert_eq!(c.claim_rewards(addr(10), addr(20), 1009), Ok(0));
    assert_eq!(c.position(addr(10)).unwrap().last_claim, 1000);
    assert_eq!(c.claim_rewards(addr(10), addr(20), 1010), Ok(100));
    assert_eq!(c.position(addr(10)).unwrap().last_claim, 1010);
}

#[test]
fn early_claim_is_refused_when_configured() {
    let a = CreateStakingPoolArgs { reject_early_claims: Some(true), ..args(100, 10) };
    let mut c = staked(a, NFTCriteria::Collection { address: addr(200) }, 1000);
    assert_eq!(c.claim_rewards(addr(10), addr(20), 1005), Err(HplNectarStakingError::RewardsNotYetAvailable));
    assert_eq!(c.position(addr(10)).unwrap().last_claim, 1000);
}

#[test]
fn claim_caps_elapsed_and_forfeits_excess() {
    let a = CreateStakingPoolArgs { max_rewards_duration: Some(20), ..args(100, 10) };
    let mut c = staked(a, NFTCriteria::Collection { address: addr(200) }, 1000);
    assert_eq!(c.claim_rewards(addr(10), addr(20), 1050), Ok(200));
    assert_eq!(c.position(addr(10)).unwrap().last_claim, 1050);
    assert_eq!(c.claim_rewards(addr(10), addr(20), 1065), Ok(150));
}

#[test]
fn zero_reward_does_not_advance_clock() {
    let mut c = staked(args(5, 10), NFTCriteria::Collection { address: addr(200) }, 1000);
    assert_eq!(c.claim_rewards(addr(10), addr(20), 1100), Ok(0));
    assert_eq!(c.position(addr(10)).unwrap().last_claim, 1000);
}

#[test]
fn claim_by_other_wallet_is_refused() {
    let mut c = staked(args(100, 10), NFTCriteria::Collection { address: addr(200) }, 1000);
    assert_eq!(c.claim_rewards(addr(10), addr(21), 1100), Err(HplNectarStakingError::StakerMismatch));
    assert_eq!(c.claim_rewards(addr(11), addr(20), 1100), Err(HplNectarStakingError::NotStaked));
}

#[test]
fn clock_reading_before_last_claim_counts_as_no_time() {
    let mut c = staked(args(100, 10), NFTCriteria::Collection { address: addr(200) }, 1000);
    assert_eq!(c.claim_rewards(addr(10), addr(20), 500), Ok(0));
    assert_eq!(c.position(addr(10)).unwrap().last_claim, 1000);
}

#[test]
fn composition_of_four_axes() {
    assert_eq!(compose_multipliers(100, 150, 120, 110, 130), Some(210));
    assert_eq!(compose_multipliers(100, 100, 100, 100, 100), Some(100));
    assert_eq!(compose_multipliers(100, 50, 100, 100, 100), Some(50));
    assert_eq!(compose_multipliers(100, 0, 0, 0, 0), None);
    assert_eq!(compose_multipliers(u64::MAX, u64::MAX, u64::MAX, u64::MAX, u64::MAX), Some(u64::MAX));
    assert_eq!(compose_multipliers(0, u64::MAX, u64::MAX, 0, 0), None);
}

fn table_with_all_axes(creator: Address, collection: Address) -> Multipliers {
    let mut m = Multipliers::new(2).unwrap();
    m.add_multiplier(MultiplierAxis::Duration, duration(150, 1_000_000)).unwrap();
    m.add_multiplier(MultiplierAxis::Count, tier(120, MultiplierType::NFTCount { min_count: 1 })).unwrap();
    m.add_multiplier(MultiplierAxis::Creator, tier(110, MultiplierType::Creator { creator })).unwrap();
    m.add_multiplier(MultiplierAxis::Collection, tier(130, MultiplierType::Collection { collection })).unwrap();
    m
}

#[test]
fn multiplier_composition_for_creator_asset() {
    let m = table_with_all_axes(addr(7), addr(8));
    assert_eq!(m.scale(), 100);
    let p = pool(100, 10, None);
    let criteria = NFTCriteria::Creator { address: addr(7) };
    assert_eq!(calculate_rewards(&p, &m, criteria, 1, 25), Ok((250 * 180 / 100, 180)));
}

#[test]
fn multiplier_composition_for_collection_asset() {
    let m = table_with_all_axes(addr(7), addr(8));
    let p = pool(100, 10, None);
    let criteria = NFTCriteria::Collection { address: addr(8) };
    assert_eq!(calculate_rewards(&p, &m, criteria, 1, 25), Ok((250 * 200 / 100, 200)));
    let unknown = NFTCriteria::Collection { address: addr(9) };
    assert_eq!(calculate_rewards(&p, &m, unknown, 0, 25), Ok((250 * 150 / 100, 150)));
}

#[test]
fn multipliers_apply_in_claim() {
    let criteria = NFTCriteria::Creator { address: addr(7) };
    let mut c = staked(args(100, 10), criteria, 1000);
    c.init_multipliers(2).unwrap();
    c.add_multiplier(MultiplierAxis::Creator, tier(110, MultiplierType::Creator { creator: addr(7) })).unwrap();
    c.add_multiplier(MultiplierAxis::Count, tier(120, MultiplierType::NFTCount { min_count: 1 })).unwrap();
    assert_eq!(c.claim_rewards(addr(10), addr(20), 1025), Ok(250 * 130 / 100));
}

#[test]
fn duration_axis_selects_while_below_threshold() {
    let mut m = Multipliers::new(2).unwrap();
    m.add_multiplier(MultiplierAxis::Duration, duration(150, 100)).unwrap();
    m.add_multiplier(MultiplierAxis::Duration, duration(200, 300)).unwrap();
    assert_eq!(m.duration_value(50), 200);
    assert_eq!(m.duration_value(100), 100);
    assert_eq!(m.duration_value(150), 100);
    assert_eq!(m.duration_value(400), 100);
}

#[test]
fn count_axis_selects_highest_reached_tier() {
    let mut m = Multipliers::new(2).unwrap();
    m.add_multiplier(MultiplierAxis::Count, tier(130, MultiplierType::NFTCount { min_count: 5 })).unwrap();
    m.add_multiplier(MultiplierAxis::Count, tier(110, MultiplierType::NFTCount { min_count: 2 })).unwrap();
    assert_eq!(m.count_value(1), 100);
    assert_eq!(m.count_value(2), 110);
    assert_eq!(m.count_value(4), 110);
    assert_eq!(m.count_value(5), 130);
}

#[test]
fn inserting_duration_tier_resorts_and_keeps_lookup_between_thresholds() {
    let mut m = Multipliers::new(2).unwrap();
    m.add_multiplier(MultiplierAxis::Duration, duration(200, 300)).unwrap();
    m.add_multiplier(MultiplierAxis::Duration, duration(150, 100)).unwrap();
    assert_eq!(thresholds(&m), vec![100, 300]);
    let before = m.duration_value(200);
    m.add_multiplier(MultiplierAxis::Duration, duration(170, 250)).unwrap();
    assert_eq!(thresholds(&m), vec![100, 250, 300]);
    assert_eq!(m.duration_value(200), before);
    assert_eq!(m.duration_value(120), before);
    m.add_multiplier(MultiplierAxis::Duration, duration(120, 50)).unwrap();
    assert_eq!(thresholds(&m), vec![50, 100, 250, 300]);
    assert_eq!(m.duration_value(200), before);
}

#[test]
fn creator_tiers_ascend_and_collection_tiers_descend_by_value() {
    let mut m = Multipliers::new(2).unwrap();
    m.add_multiplier(MultiplierAxis::Creator, tier(130, MultiplierType::Creator { creator: addr(7) })).unwrap();
    m.add_multiplier(MultiplierAxis::Creator, tier(110, MultiplierType::Creator { creator: addr(7) })).unwrap();
    m.add_multiplier(MultiplierAxis::Collection, tier(110, MultiplierType::Collection { collection: addr(8) })).unwrap();
    m.add_multiplier(MultiplierAxis::Collection, tier(130, MultiplierType::Collection { collection: addr(8) })).unwrap();
    let creators: Vec<u64> = m.tiers(MultiplierAxis::Creator).iter().map(|t| t.value).collect();
    let collections: Vec<u64> = m.tiers(MultiplierAxis::Collection).iter().map(|t| t.value).collect();
    assert_eq!(creators, vec![110, 130]);
    assert_eq!(collections, vec![130, 110]);
    assert_eq!(m.creator_value(addr(7)), 110);
    assert_eq!(m.collection_value(addr(8)), 130);
    assert_eq!(m.creator_value(addr(9)), 100);
}

#[test]
fn tier_on_wrong_axis_is_refused() {
    let mut m = Multipliers::new(2).unwrap();
    assert_eq!(
        m.add_multiplier(MultiplierAxis::Creator, duration(150, 100)),
        Err(HplNectarStakingError::MultiplierConfigInvalid)
    );
    assert!(m.tiers(MultiplierAxis::Creator).is_empty());
    assert!(m.tiers(MultiplierAxis::Duration).is_empty());
}

#[test]
fn scale_is_ten_to_the_decimals() {
    assert_eq!(Multipliers::new(0).unwrap().scale(), 1);
    assert_eq!(Multipliers::new(3).unwrap().scale(), 1000);
    assert_eq!(Multipliers::new(19).unwrap().scale(), 10_000_000_000_000_000_000);
    assert_eq!(Multipliers::new(20).err(), Some(HplNectarStakingError::MultiplierConfigInvalid));
}

#[test]
fn overflowing_reward_is_refused() {
    let m = Multipliers::new(0).unwrap();
    let p = pool(u64::MAX, 1, None);
    assert_eq!(
        calculate_rewards(&p, &m, NFTCriteria::Unclassified, 1, 2),
        Err(HplNectarStakingError::ArithmeticOverflow)
    );
    let mut c = staked(args(u64::MAX, 1), NFTCriteria::Collection { address: addr(200) }, 1000);
    assert_eq!(c.claim_rewards(addr(10), addr(20), 1002), Err(HplNectarStakingError::ArithmeticOverflow));
    assert_eq!(c.position(addr(10)).unwrap().last_claim, 1000);
}

#[test]
fn product_overflow_is_refused() {
    let mut m = Multipliers::new(2).unwrap();
    m.add_multiplier(MultiplierAxis::Count, tier(u64::MAX / 2, MultiplierType::NFTCount { min_count: 0 })).unwrap();
    let p = pool(1000, 1, None);
    assert_eq!(
        calculate_rewards(&p, &m, NFTCriteria::Unclassified, 1, 10),
        Err(HplNectarStakingError::ArithmeticOverflow)
    );
}

#[test]
fn lock_type_is_kept_by_pool() {
    let c = staked(CreateStakingPoolArgs { lock_type: Some(LockType::Custody), ..args(1, 1) }, NFTCriteria::MerkleTree { address: addr(3) }, 5);
    assert_eq!(c.pool().lock_type, LockType::Custody);
    assert_eq!(c.position(addr(10)).unwrap().criteria, NFTCriteria::MerkleTree { address: addr(3) });
}
