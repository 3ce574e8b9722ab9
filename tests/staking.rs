use allovr_token::constants::{
    ALLOVR_AOVR_STAKE_MINIMUM_STAKE, ALLOVR_AOVR_STAKE_NUM_POOLS,
    ALLOVR_AOVR_STAKE_NUM_STAKES_IN_POOL, INFLATION_INTERVAL_IN_SECONDS,
};
use allovr_token::errors::AllovrError;
use allovr_token::inflation::{
    handle_aovr_inflation_run, handle_initialise_aovr, handle_mint_aovr,
    handle_test_update_inflation_run, weekly_inflation_amount, InflationPayout,
};
use allovr_token::processors::{
    handle_cancel_stake_withdrawal, handle_initialise_staking, handle_rebalance_staking_pool,
    handle_register_staking_pool, handle_stake, handle_withdraw_stake,
};
use allovr_token::state::{
    Address, AllovrTokenState, InitAovrArgs, RpcStakePoolInfo, StakeMetadata, StakePool,
    StakePoolInfo, StakePoolRegistry,
};
use allovr_token::utils::{pool_in_step, rebalance};

fn addr(b: u8) -> Address {
    Address::new([b; 32])
}

fn slot_sum(pool: &StakePool) -> u64 {
    pool.stakes.iter().sum()
}

fn owed_sum(registry: &StakePoolRegistry) -> u64 {
    registry.pools.iter().flatten().map(|p| p.total_owed).sum()
}

fn staked_sum(registry: &StakePoolRegistry) -> u64 {
    registry.pools.iter().flatten().map(|p| p.total_staked).sum()
}

/// A registry with pools 0..n registered, each at address `100 + i`.
fn registry_with_pools(n: u8) -> (StakePoolRegistry, Vec<StakePool>) {
    let mut registry = StakePoolRegistry::new();
    let mut pools = Vec::new();
    for i in 0..n {
        pools.push(handle_register_staking_pool(&mut registry, addr(100 + i), i).unwrap());
    }
    (registry, pools)
}

fn minted_state() -> AllovrTokenState {
    let founders = InitAovrArgs {
        founder_1: addr(1),
        founder_2: addr(2),
        founder_3: addr(3),
        founder_4: addr(4),
        founder_5: addr(5),
        founder_6: addr(6),
        founder_7: addr(7),
        founder_8: addr(8),
    };
    let mut state = AllovrTokenState {
        minted: true,
        next_inflation_due: 5,
        inflation_run_count: 3,
        founder_1: addr(0),
        founder_2: addr(0),
        founder_3: addr(0),
        founder_4: addr(0),
        founder_5: addr(0),
        founder_6: addr(0),
        founder_7: addr(0),
        founder_8: addr(0),
    };
    handle_initialise_aovr(&mut state, founders).unwrap();
    handle_mint_aovr(&mut state, 1_000).unwrap();
    state
}

#[test]
fn new_registry_is_empty() {
    let mut registry = StakePoolRegistry::new();
    assert_eq!(registry.total_staked, 0);
    assert_eq!(registry.pool_head, 0);
    assert!(registry.pools.iter().all(|p| p.is_none()));
    registry.total_staked = 9;
    handle_initialise_staking(&mut registry).unwrap();
    assert_eq!(registry.total_staked, 0);
    assert_eq!(registry.total_owed, 0);
}

#[test]
fn register_out_of_order_is_a_head_mismatch() {
    let mut registry = StakePoolRegistry::new();
    let r = handle_register_staking_pool(&mut registry, addr(1), 2);
    assert_eq!(r.unwrap_err(), AllovrError::PoolIndexMismatch);
    assert_eq!(registry.pool_head, 0);
    assert!(registry.pools[2].is_none());
}

#[test]
fn register_same_index_twice_is_refused_as_existing() {
    let mut registry = StakePoolRegistry::new();
    let pool = handle_register_staking_pool(&mut registry, addr(1), 0).unwrap();
    assert_eq!(pool.total_staked, 0);
    assert!(pool.stakes.iter().all(|s| *s == 0));
    assert_eq!(registry.pool_head, 1);
    let info = registry.pools[0].unwrap();
    assert_eq!(info.total_staked, 0);
    assert_eq!(info.total_owed, 0);
    assert_eq!(info.pool_address.bytes, [1u8; 32]);
    let again = handle_register_staking_pool(&mut registry, addr(1), 0);
    assert_eq!(again.unwrap_err(), AllovrError::PoolAlreadyExists);
    assert_eq!(registry.pool_head, 1);
}

#[test]
fn register_fills_the_registry_then_refuses_the_index_past_it() {
    let (mut registry, pools) = registry_with_pools(ALLOVR_AOVR_STAKE_NUM_POOLS as u8);
    assert_eq!(pools.len(), ALLOVR_AOVR_STAKE_NUM_POOLS);
    assert_eq!(registry.pool_head as usize, ALLOVR_AOVR_STAKE_NUM_POOLS);
    let r = handle_register_staking_pool(&mut registry, addr(1), ALLOVR_AOVR_STAKE_NUM_POOLS as u8);
    assert_eq!(r.unwrap_err(), AllovrError::InvalidPoolIndex);
}

#[test]
fn require_pool_checks_index_and_address() {
    let (registry, _) = registry_with_pools(2);
    assert!(registry.require_stake_pool_address_at_index(1, addr(101)).is_ok());
    assert_eq!(
        registry.require_stake_pool_address_at_index(1, addr(100)),
        Err(AllovrError::InvalidPoolAddress)
    );
    assert_eq!(
        registry.require_stake_pool_address_at_index(2, addr(102)),
        Err(AllovrError::InvalidPoolIndex)
    );
    assert_eq!(
        registry.require_stake_pool_address_at_index(500, addr(102)),
        Err(AllovrError::InvalidPoolIndex)
    );
}

#[test]
fn address_comparison_looks_at_every_byte() {
    let a = addr(7);
    let mut bytes = [7u8; 32];
    bytes[31] = 8;
    assert!(a.same_as(&addr(7)));
    assert!(!a.same_as(&Address::new(bytes)));
}

#[test]
fn stake_below_minimum_is_refused_and_minimum_is_accepted() {
    let (mut registry, mut pools) = registry_with_pools(1);
    let mut stake = StakeMetadata::new();
    let r = handle_stake(
        &mut registry,
        &mut pools[0],
        addr(100),
        &mut stake,
        ALLOVR_AOVR_STAKE_MINIMUM_STAKE - 1,
        0,
        0,
        true,
        42,
    );
    assert_eq!(r, Err(AllovrError::MinimumStakeAmount));
    assert_eq!(stake.initialised_date, 0);
    assert_eq!(registry.total_staked, 0);
    let r = handle_stake(
        &mut registry,
        &mut pools[0],
        addr(100),
        &mut stake,
        ALLOVR_AOVR_STAKE_MINIMUM_STAKE,
        0,
        0,
        true,
        42,
    );
    assert_eq!(r, Ok(()));
    assert_eq!(pools[0].stakes[0], ALLOVR_AOVR_STAKE_MINIMUM_STAKE);
    assert_eq!(pools[0].total_staked, ALLOVR_AOVR_STAKE_MINIMUM_STAKE);
    assert_eq!(registry.total_staked, ALLOVR_AOVR_STAKE_MINIMUM_STAKE);
    assert_eq!(registry.pools[0].unwrap().total_staked, ALLOVR_AOVR_STAKE_MINIMUM_STAKE);
    assert_eq!(stake.initialised_date, 42);
}

#[test]
fn stake_binding_is_permanent() {
    let (mut registry, mut pools) = registry_with_pools(4);
    let mut stake = StakeMetadata::new();
    handle_stake(&mut registry, &mut pools[3], addr(103), &mut stake, 2000, 3, 7, true, 10)
        .unwrap();
    assert_eq!(stake.pool_index, 3);
    assert_eq!(stake.slot_index, 7);
    assert_eq!(stake.initialised_date, 10);
    let before = pools[3];
    let r = handle_stake(&mut registry, &mut pools[3], addr(103), &mut stake, 2000, 3, 8, true, 11);
    assert_eq!(r, Err(AllovrError::StakeAlreadyInitialised));
    assert_eq!(pools[3].stakes, before.stakes);
    let r = handle_stake(&mut registry, &mut pools[3], addr(103), &mut stake, 1500, 3, 7, true, 12);
    assert_eq!(r, Ok(()));
    assert_eq!(pools[3].stakes[7], 3500);
    assert_eq!(pools[3].total_staked, 3500);
    assert_eq!(registry.total_staked, 3500);
    assert_eq!(stake.initialised_date, 10);
}

#[test]
fn stake_into_an_occupied_slot_is_refused_for_a_newcomer() {
    let (mut registry, mut pools) = registry_with_pools(1);
    let mut first = StakeMetadata::new();
    let mut second = StakeMetadata::new();
    handle_stake(&mut registry, &mut pools[0], addr(100), &mut first, 1000, 0, 5, true, 1).unwrap();
    let r = handle_stake(&mut registry, &mut pools[0], addr(100), &mut second, 1000, 0, 5, true, 2);
    assert_eq!(r, Err(AllovrError::SlotIndexOccupied));
    assert_eq!(second.initialised_date, 0);
    assert_eq!(pools[0].stakes[5], 1000);
}

#[test]
fn stake_checks_slot_pool_and_address() {
    let (mut registry, mut pools) = registry_with_pools(1);
    let mut stake = StakeMetadata::new();
    let slot_past_end = ALLOVR_AOVR_STAKE_NUM_STAKES_IN_POOL as u8;
    let r =
        handle_stake(&mut registry, &mut pools[0], addr(100), &mut stake, 1000, 0, slot_past_end, true, 1);
    assert_eq!(r, Err(AllovrError::InvalidSlotIndex));
    let r = handle_stake(&mut registry, &mut pools[0], addr(100), &mut stake, 1000, 1, 0, true, 1);
    assert_eq!(r, Err(AllovrError::InvalidPoolIndex));
    let r = handle_stake(&mut registry, &mut pools[0], addr(99), &mut stake, 1000, 0, 0, true, 1);
    assert_eq!(r, Err(AllovrError::InvalidPoolAddress));
    assert_eq!(stake.initialised_date, 0);
    assert_eq!(registry.total_staked, 0);
}

#[test]
fn stake_into_an_owed_pool_needs_a_rebalance() {
    let (mut registry, mut pools) = registry_with_pools(1);
    let mut a = StakeMetadata::new();
    let mut b = StakeMetadata::new();
    handle_stake(&mut registry, &mut pools[0], addr(100), &mut a, 1000, 0, 0, true, 1).unwrap();
    let mut state = minted_state();
    handle_test_update_inflation_run(&mut state, 0).unwrap();
    handle_aovr_inflation_run(&mut state, &mut registry, 936_000, 50).unwrap();
    assert_eq!(registry.pools[0].unwrap().total_owed, 300);
    let r = handle_stake(&mut registry, &mut pools[0], addr(100), &mut b, 1000, 0, 1, false, 2);
    assert_eq!(r, Err(AllovrError::StakePoolRebalanceRequired));
    assert_eq!(b.initialised_date, 0);
    let r = handle_stake(&mut registry, &mut pools[0], addr(100), &mut b, 1000, 0, 1, true, 2);
    assert_eq!(r, Ok(()));
    // the earlier stake took the whole owed amount before the new one joined
    assert_eq!(pools[0].stakes[0], 1300);
    assert_eq!(pools[0].stakes[1], 1000);
    assert_eq!(pools[0].total_staked, 2300);
    assert_eq!(registry.total_staked, 2300);
    assert_eq!(registry.total_owed, 0);
    assert_eq!(registry.pools[0].unwrap().total_owed, 0);
}

#[test]
fn scenario_emission_then_rebalance_twice() {
    let (mut registry, mut pools) = registry_with_pools(1);
    let mut stake = StakeMetadata::new();
    handle_stake(&mut registry, &mut pools[0], addr(100), &mut stake, 1000, 0, 0, true, 1).unwrap();
    let mut state = minted_state();
    handle_test_update_inflation_run(&mut state, 0).unwrap();
    let payout = handle_aovr_inflation_run(&mut state, &mut registry, 936_000, 50).unwrap();
    // 936000 * 5 / 100 / 52 = 900, a third of which is the staking pot
    assert_eq!(payout, InflationPayout { staking: 300, treasury: 600 });
    assert_eq!(registry.pools[0].unwrap().total_owed, 300);
    assert_eq!(registry.total_owed, 300);
    assert_eq!(registry.total_staked, 1000);
    handle_rebalance_staking_pool(&mut registry, &mut pools[0], addr(100), 0).unwrap();
    assert_eq!(pools[0].stakes[0], 1300);
    assert_eq!(pools[0].total_staked, 1300);
    assert_eq!(registry.total_staked, 1300);
    assert_eq!(registry.pools[0].unwrap().total_staked, 1300);
    assert_eq!(registry.pools[0].unwrap().total_owed, 0);
    let (registry_before, pool_before) = (registry, pools[0]);
    handle_rebalance_staking_pool(&mut registry, &mut pools[0], addr(100), 0).unwrap();
    assert_eq!(pools[0].stakes, pool_before.stakes);
    assert_eq!(pools[0].total_staked, pool_before.total_staked);
    assert_eq!(registry.total_staked, registry_before.total_staked);
    assert_eq!(registry.pools[0].unwrap().total_owed, 0);
}

#[test]
fn rebalance_divides_before_multiplying_and_keeps_the_dust() {
    let (mut registry, mut pools) = registry_with_pools(1);
    let mut a = StakeMetadata::new();
    let mut b = StakeMetadata::new();
    handle_stake(&mut registry, &mut pools[0], addr(100), &mut a, 1500, 0, 0, true, 1).unwrap();
    handle_stake(&mut registry, &mut pools[0], addr(100), &mut b, 1500, 0, 1, true, 1).unwrap();
    let mut state = minted_state();
    handle_test_update_inflation_run(&mut state, 0).unwrap();
    handle_aovr_inflation_run(&mut state, &mut registry, 936_000, 50).unwrap();
    assert_eq!(registry.pools[0].unwrap().total_owed, 300);
    rebalance(&mut registry, &mut pools[0], 0).unwrap();
    // 1500 / 3000 is 0 for each slot: the owed amount becomes dust
    assert_eq!(pools[0].stakes[0], 1500);
    assert_eq!(pools[0].stakes[1], 1500);
    assert_eq!(pools[0].total_staked, 3300);
    assert_eq!(slot_sum(&pools[0]), 3000);
    assert_eq!(pools[0].total_staked - slot_sum(&pools[0]), 300);
    assert_eq!(registry.total_staked, 3300);
}

#[test]
fn rebalance_of_an_unregistered_pool_is_refused() {
    let (mut registry, mut pools) = registry_with_pools(1);
    let mut other = StakePool::new();
    assert_eq!(rebalance(&mut registry, &mut other, 1), Err(AllovrError::InvalidPoolIndex));
    assert_eq!(rebalance(&mut registry, &mut other, 200), Err(AllovrError::InvalidPoolIndex));
    assert_eq!(
        handle_rebalance_staking_pool(&mut registry, &mut pools[0], addr(5), 0),
        Err(AllovrError::InvalidPoolAddress)
    );
}

#[test]
fn totals_stay_conserved_across_pools() {
    let (mut registry, mut pools) = registry_with_pools(3);
    let amounts = [(0u8, 0u8, 1000u64), (0, 1, 3000), (1, 0, 2500), (2, 9, 4000)];
    let mut stakes = Vec::new();
    for (pool, slot, amount) in amounts {
        let mut s = StakeMetadata::new();
        let p = pool as usize;
        handle_stake(&mut registry, &mut pools[p], addr(100 + pool), &mut s, amount, pool, slot, true, 7)
            .unwrap();
        stakes.push(s);
    }
    let mut state = minted_state();
    handle_test_update_inflation_run(&mut state, 0).unwrap();
    let payout = handle_aovr_inflation_run(&mut state, &mut registry, 1_000_000_000, 50).unwrap();
    let weekly = 1_000_000_000u64 * 5 / 100 / 52;
    assert_eq!(payout.staking + payout.treasury, weekly);
    assert!(payout.staking <= weekly / 3);
    assert_eq!(registry.total_owed, payout.staking);
    assert_eq!(owed_sum(&registry), payout.staking);
    for i in 0..3u8 {
        let owed = registry.pools[i as usize].unwrap().total_owed;
        let staked = registry.pools[i as usize].unwrap().total_staked;
        assert_eq!(owed, staked * (weekly / 3) / 10_500);
        rebalance(&mut registry, &mut pools[i as usize], i).unwrap();
    }
    assert_eq!(registry.total_owed, 0);
    assert_eq!(registry.total_staked, staked_sum(&registry));
    let pool_totals: u64 = pools.iter().map(|p| p.total_staked).sum();
    assert_eq!(registry.total_staked, pool_totals);
    for (i, pool) in pools.iter().enumerate() {
        assert_eq!(registry.pools[i].unwrap().total_staked, pool.total_staked);
        assert!(slot_sum(pool) <= pool.total_staked);
    }
    assert_eq!(registry.total_staked, 10_500 + payout.staking);
}

#[test]
fn emission_without_stake_pays_the_treasury() {
    let (mut registry, _) = registry_with_pools(2);
    let mut state = minted_state();
    handle_test_update_inflation_run(&mut state, 0).unwrap();
    let runs = state.inflation_run_count;
    let payout = handle_aovr_inflation_run(&mut state, &mut registry, 936_000, 50).unwrap();
    assert_eq!(payout, InflationPayout { staking: 0, treasury: 900 });
    assert_eq!(registry.total_owed, 0);
    assert_eq!(state.inflation_run_count, runs + 1);
    assert_eq!(state.next_inflation_due, INFLATION_INTERVAL_IN_SECONDS);
}

#[test]
fn emission_follows_the_schedule() {
    let mut registry = StakePoolRegistry::new();
    let mut state = minted_state();
    assert_eq!(state.next_inflation_due, 1_000 + INFLATION_INTERVAL_IN_SECONDS);
    let r = handle_aovr_inflation_run(&mut state, &mut registry, 936_000, 1_000);
    assert_eq!(r, Err(AllovrError::AovrInflationNotDue));
    assert_eq!(state.inflation_run_count, 0);
    let due = state.next_inflation_due;
    handle_aovr_inflation_run(&mut state, &mut registry, 936_000, due).unwrap();
    assert_eq!(state.next_inflation_due, due + INFLATION_INTERVAL_IN_SECONDS);
    assert_eq!(state.inflation_run_count, 1);
}

#[test]
fn emission_before_minting_is_refused() {
    let mut registry = StakePoolRegistry::new();
    let mut state = minted_state();
    state.minted = false;
    let r = handle_aovr_inflation_run(&mut state, &mut registry, 936_000, i64::MAX);
    assert_eq!(r, Err(AllovrError::AovrNotMinted));
}

#[test]
fn minting_twice_is_refused() {
    let mut state = minted_state();
    assert!(state.minted);
    assert_eq!(state.founder_8.bytes, [8u8; 32]);
    let due = state.next_inflation_due;
    assert_eq!(handle_mint_aovr(&mut state, 5), Err(AllovrError::AovrAlreadyMinted));
    assert_eq!(state.next_inflation_due, due);
}

#[test]
fn withdrawal_requests_are_bounded_and_replaced() {
    let (mut registry, mut pools) = registry_with_pools(1);
    let mut stake = StakeMetadata::new();
    assert_eq!(
        handle_withdraw_stake(&registry, &pools[0], addr(100), &mut stake, 1, 5),
        Err(AllovrError::NoStakeExists)
    );
    handle_stake(&mut registry, &mut pools[0], addr(100), &mut stake, 1000, 0, 0, true, 1).unwrap();
    let mut state = minted_state();
    handle_test_update_inflation_run(&mut state, 0).unwrap();
    handle_aovr_inflation_run(&mut state, &mut registry, 936_000, 50).unwrap();
    // the slot holds 1000 and is owed all 300 of the pool
    assert_eq!(
        handle_withdraw_stake(&registry, &pools[0], addr(100), &mut stake, 1301, 5),
        Err(AllovrError::WithdrawalAmountExceedsStakedAmount)
    );
    assert_eq!(
        handle_withdraw_stake(&registry, &pools[0], addr(1), &mut stake, 1, 5),
        Err(AllovrError::InvalidPoolAddress)
    );
    handle_withdraw_stake(&registry, &pools[0], addr(100), &mut stake, 1300, 5).unwrap();
    assert_eq!(stake.withdrawal_request, 1300);
    assert_eq!(stake.withdrawal_request_date, Some(5));
    handle_withdraw_stake(&registry, &pools[0], addr(100), &mut stake, 10, 6).unwrap();
    assert_eq!(stake.withdrawal_request, 10);
    assert_eq!(stake.withdrawal_request_date, Some(6));
    handle_cancel_stake_withdrawal(&mut stake).unwrap();
    assert_eq!(stake.withdrawal_request, 0);
    assert_eq!(stake.withdrawal_request_date, None);
    handle_cancel_stake_withdrawal(&mut stake).unwrap();
    assert_eq!(stake.pool_index, 0);
    assert_eq!(stake.initialised_date, 1);
}

#[test]
fn stake_record_methods() {
    let mut stake = StakeMetadata::new();
    assert_eq!(stake.request_withdrawal(5, 9), Err(AllovrError::NoStakeExists));
    stake.init(2, 3, 77).unwrap();
    assert_eq!((stake.pool_index, stake.slot_index, stake.initialised_date), (2, 3, 77));
    assert_eq!(stake.init(4, 4, 78), Err(AllovrError::StakeAlreadyInitialised));
    assert_eq!(stake.pool_index, 2);
    stake.request_withdrawal(5, 9).unwrap();
    assert_eq!(stake.withdrawal_request, 5);
    stake.cancel_withdrawal().unwrap();
    assert_eq!(stake.withdrawal_request_date, None);
}

#[test]
fn pool_info_from_client_copy() {
    let rpc = RpcStakePoolInfo { total_staked: 4, total_owed: 5, pool_address: addr(6) };
    let info = StakePoolInfo::from(rpc);
    assert_eq!(info.total_staked, 4);
    assert_eq!(info.total_owed, 5);
    assert_eq!(info.pool_address.bytes, [6u8; 32]);
}

#[test]
fn error_messages() {
    assert_eq!(AllovrError::PoolAlreadyExists.message(), "Pool already exists");
    assert_eq!(AllovrError::MinimumStakeAmount.message(), "Minimum stake amount required");
    assert_eq!(AllovrError::FatalError.message(), "Fatal Error");
}

#[test]
fn stake_into_the_last_slot() {
    let (mut registry, mut pools) = registry_with_pools(1);
    let mut stake = StakeMetadata::new();
    let last = (ALLOVR_AOVR_STAKE_NUM_STAKES_IN_POOL - 1) as u8;
    handle_stake(&mut registry, &mut pools[0], addr(100), &mut stake, 1000, 0, last, false, 3)
        .unwrap();
    assert_eq!(pools[0].stakes[last as usize], 1000);
    assert_eq!(stake.slot_index, last);
}

#[test]
fn stored_records_are_checked_for_consistency() {
    let (mut registry, mut pools) = registry_with_pools(2);
    let mut stake = StakeMetadata::new();
    handle_stake(&mut registry, &mut pools[1], addr(101), &mut stake, 1000, 1, 0, true, 3).unwrap();
    assert!(registry.is_well_formed());
    assert!(pools[1].is_well_formed());
    assert!(pool_in_step(&registry, &pools[1], 1));
    assert!(!pool_in_step(&registry, &pools[0], 1));
    assert!(pool_in_step(&registry, &pools[0], 7));

    let mut wrong_total = registry;
    wrong_total.total_staked += 1;
    assert!(!wrong_total.is_well_formed());

    let mut gap = registry;
    gap.pools[5] = gap.pools[0];
    assert!(!gap.is_well_formed());

    let mut owed_without_stake = registry;
    let mut info = owed_without_stake.pools[0].unwrap();
    info.total_owed = 1;
    owed_without_stake.pools[0] = Some(info);
    owed_without_stake.total_owed = 1;
    assert!(!owed_without_stake.is_well_formed());

    let mut overfull = pools[1];
    overfull.stakes[3] = 1;
    assert!(!overfull.is_well_formed());
}

#[test]
fn weekly_amount_is_five_percent_a_year() {
    assert_eq!(weekly_inflation_amount(936_000), 900);
    assert_eq!(weekly_inflation_amount(0), 0);
    assert_eq!(weekly_inflation_amount(u64::MAX), (u64::MAX as u128 * 5 / 100 / 52) as u64);
}
