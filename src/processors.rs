use vstd::prelude::*;

use crate::constants::{
    ALLOVR_AOVR_STAKE_MINIMUM_STAKE, ALLOVR_AOVR_STAKE_NUM_POOLS,
    ALLOVR_AOVR_STAKE_NUM_STAKES_IN_POOL,
};
use crate::errors::AllovrError;
use crate::state::{
    lemma_amount_within_sum, lemma_entry_within_sums, lemma_sum_amounts_update, lemma_sums_update,
    Address, StakeMetadata, StakePool, StakePoolInfo, StakePoolRegistry,
};
use crate::utils::{in_step, rebalance, rebalanced, slot_share};

verus! {

// ---------------------------------------------------------------------------
// Registry initialisation
// ---------------------------------------------------------------------------

/// Sets up an empty registry.
pub fn handle_initialise_staking(stake_pool_registry: &mut StakePoolRegistry) -> (r: Result<
    (),
    AllovrError,
>)
    ensures
        r is Ok,
        final(stake_pool_registry).wf(),
        final(stake_pool_registry).total_staked == 0,
        final(stake_pool_registry).total_owed == 0,
        final(stake_pool_registry).pool_head == 0,
{
    stake_pool_registry.init();
    Ok(())
}

// ---------------------------------------------------------------------------
// Pool registration
// ---------------------------------------------------------------------------

/// What registering a pool at `index` answers.
pub open spec fn register_result(registry: StakePoolRegistry, index: int) -> Result<(), AllovrError> {
    if index >= ALLOVR_AOVR_STAKE_NUM_POOLS {
        Err(AllovrError::InvalidPoolIndex)
    } else if registry.pools@[index] is Some {
        Err(AllovrError::PoolAlreadyExists)
    } else if index != registry.pool_head {
        Err(AllovrError::PoolIndexMismatch)
    } else {
        Ok(())
    }
}

/// `r1` is `r0` with a fresh entry for the pool at `address` registered at
/// `index`, and the head moved past it.
pub open spec fn registered(
    r0: StakePoolRegistry,
    index: int,
    address: Address,
    r1: StakePoolRegistry,
) -> bool {
    &&& r1.total_staked == r0.total_staked
    &&& r1.total_owed == r0.total_owed
    &&& r1.pool_head == index + 1
    &&& r1.pools@ == r0.pools@.update(
        index,
        Some(StakePoolInfo { total_staked: 0, total_owed: 0, pool_address: address }),
    )
}

/// Registers the pool at `pool_address` at `pool_index`, which must be the
/// registry's head, and returns the new pool with every slot free.
pub fn handle_register_staking_pool(
    stake_pool_registry: &mut StakePoolRegistry,
    pool_address: Address,
    pool_index: u8,
) -> (r: Result<StakePool, AllovrError>)
    requires
        old(stake_pool_registry).wf(),
    ensures
        r is Ok <==> register_result(*old(stake_pool_registry), pool_index as int) is Ok,
        r is Err ==> Err::<(), AllovrError>(r->Err_0) == register_result(
            *old(stake_pool_registry),
            pool_index as int,
        ) && *final(stake_pool_registry) == *old(stake_pool_registry),
        r is Ok ==> registered(
            *old(stake_pool_registry),
            pool_index as int,
            pool_address,
            *final(stake_pool_registry),
        ) && r->Ok_0.total_staked == 0 && (forall|j: int|
            0 <= j < ALLOVR_AOVR_STAKE_NUM_STAKES_IN_POOL ==> r->Ok_0.stakes@[j] == 0),
        r is Ok ==> r->Ok_0.wf() && in_step(
            *final(stake_pool_registry),
            r->Ok_0,
            pool_index as int,
        ),
        final(stake_pool_registry).wf(),
{
    let index = pool_index as usize;
    if index >= ALLOVR_AOVR_STAKE_NUM_POOLS {
        return Err(AllovrError::InvalidPoolIndex);
    }
    if stake_pool_registry.pools[index].is_some() {
        return Err(AllovrError::PoolAlreadyExists);
    }
    if stake_pool_registry.pool_head != pool_index {
        return Err(AllovrError::PoolIndexMismatch);
    }
    let stake_pool = StakePool::new();
    let info = StakePoolInfo { total_staked: 0, total_owed: 0, pool_address };
    let ghost r0 = *stake_pool_registry;
    stake_pool_registry.pools[index] = Some(info);
    stake_pool_registry.pool_head = pool_index + 1;
    proof {
        lemma_sums_update(r0.pools@, index as int, Some(info));
    }
    Ok(stake_pool)
}

// ---------------------------------------------------------------------------
// Staking
// ---------------------------------------------------------------------------

/// What a stake of `amount` into `(pool_index, slot_index)` answers, in the
/// order the checks are made. A pool that is owed something must be
/// rebalanced first: either the caller asks for it, or the stake is refused.
pub open spec fn stake_result(
    registry: StakePoolRegistry,
    pool: StakePool,
    stake: StakeMetadata,
    pool_address: Address,
    pool_index: u8,
    slot_index: u8,
    amount: u64,
    rebalance_if_needed: bool,
) -> Result<(), AllovrError> {
    if amount < ALLOVR_AOVR_STAKE_MINIMUM_STAKE {
        Err(AllovrError::MinimumStakeAmount)
    } else if stake.initialised_date != 0 && (stake.pool_index != pool_index || stake.slot_index
        != slot_index) {
        Err(AllovrError::StakeAlreadyInitialised)
    } else if slot_index as int >= ALLOVR_AOVR_STAKE_NUM_STAKES_IN_POOL {
        Err(AllovrError::InvalidSlotIndex)
    } else if registry.check_pool_at(pool_index as int, pool_address) is Err {
        registry.check_pool_at(pool_index as int, pool_address)
    } else if stake.initialised_date == 0 && pool.stakes@[slot_index as int] != 0 {
        Err(AllovrError::SlotIndexOccupied)
    } else if !rebalance_if_needed && registry.entry(pool_index as int)->Some_0.total_owed > 0 {
        Err(AllovrError::StakePoolRebalanceRequired)
    } else {
        Ok(())
    }
}

/// `(r1, p1)` is `(r0, p0)` after what is owed to entry `index` was folded
/// into the slots and then `amount` was added to slot `slot`.
pub open spec fn staked_into(
    r0: StakePoolRegistry,
    p0: StakePool,
    index: int,
    slot: int,
    amount: u64,
    r1: StakePoolRegistry,
    p1: StakePool,
) -> bool {
    let info = r0.entry(index)->Some_0;
    let owed = info.total_owed;
    &&& p1.total_staked == p0.total_staked + owed + amount
    &&& forall|j: int|
        0 <= j < ALLOVR_AOVR_STAKE_NUM_STAKES_IN_POOL ==> #[trigger] p1.stakes@[j] == p0.stakes@[j]
            + slot_share(p0.stakes@[j], p0.total_staked, owed) + (if j == slot {
            amount as int
        } else {
            0
        })
    &&& r1.total_staked == r0.total_staked + owed + amount
    &&& r1.total_owed == r0.total_owed - owed
    &&& r1.pool_head == r0.pool_head
    &&& r1.pools@ == r0.pools@.update(
        index,
        Some(
            StakePoolInfo {
                total_staked: (info.total_staked + owed + amount) as u64,
                total_owed: 0,
                pool_address: info.pool_address,
            },
        ),
    )
}

/// The stake record after a successful stake: bound on the first stake,
/// unchanged afterwards.
pub open spec fn stake_record_after(
    stake: StakeMetadata,
    pool_index: u8,
    slot_index: u8,
    now: i64,
) -> StakeMetadata {
    if stake.initialised_date == 0 {
        StakeMetadata {
            initialised_date: now,
            pool_index,
            slot_index,
            withdrawal_request: 0,
            withdrawal_request_date: None,
        }
    } else {
        stake
    }
}

/// Stakes `amount` into slot `slot_index` of the pool at `pool_index`. The
/// first stake binds the participant's record to that pool and slot for
/// good; later stakes must name the same pool and slot. When the pool is
/// owed something it is rebalanced first (if `rebalance_if_needed`), so the
/// new amount takes no share of rewards it was not present for.
///
/// All amounts are token units of one `u64` supply, so staked plus owed plus
/// the new amount must fit in a `u64`; callers check this before the call.
pub fn handle_stake(
    stake_pool_registry: &mut StakePoolRegistry,
    stake_pool: &mut StakePool,
    pool_address: Address,
    stake: &mut StakeMetadata,
    amount: u64,
    pool_index: u8,
    slot_index: u8,
    rebalance_if_needed: bool,
    now: i64,
) -> (r: Result<(), AllovrError>)
    requires
        old(stake_pool_registry).wf(),
        old(stake_pool).wf(),
        old(stake_pool_registry).check_pool_at(pool_index as int, pool_address) is Ok ==> in_step(
            *old(stake_pool_registry),
            *old(stake_pool),
            pool_index as int,
        ),
        old(stake_pool_registry).total_staked + old(stake_pool_registry).total_owed + amount
            <= u64::MAX,
    ensures
        r == stake_result(
            *old(stake_pool_registry),
            *old(stake_pool),
            *old(stake),
            pool_address,
            pool_index,
            slot_index,
            amount,
            rebalance_if_needed,
        ),
        r is Err ==> *final(stake_pool_registry) == *old(stake_pool_registry) && *final(stake_pool)
            == *old(stake_pool) && *final(stake) == *old(stake),
        r is Ok ==> staked_into(
            *old(stake_pool_registry),
            *old(stake_pool),
            pool_index as int,
            slot_index as int,
            amount,
            *final(stake_pool_registry),
            *final(stake_pool),
        ) && *final(stake) == stake_record_after(*old(stake), pool_index, slot_index, now),
        final(stake_pool_registry).wf(),
        final(stake_pool).wf(),
        old(stake_pool_registry).check_pool_at(pool_index as int, pool_address) is Ok ==> in_step(
            *final(stake_pool_registry),
            *final(stake_pool),
            pool_index as int,
        ),
{
    if amount < ALLOVR_AOVR_STAKE_MINIMUM_STAKE {
        return Err(AllovrError::MinimumStakeAmount);
    }
    let first_stake = stake.initialised_date == 0;
    if !first_stake && (stake.pool_index != pool_index || stake.slot_index != slot_index) {
        return Err(AllovrError::StakeAlreadyInitialised);
    }
    let slot = slot_index as usize;
    if slot >= ALLOVR_AOVR_STAKE_NUM_STAKES_IN_POOL {
        return Err(AllovrError::InvalidSlotIndex);
    }
    let index = pool_index as usize;
    match stake_pool_registry.require_stake_pool_address_at_index(index, pool_address) {
        Err(e) => {
            return Err(e);
        },
        Ok(()) => {},
    }
    let info = match stake_pool_registry.pools[index] {
        Some(info) => info,
        None => {
            return Err(AllovrError::FatalError);
        },
    };
    if first_stake && stake_pool.stakes[slot] != 0 {
        return Err(AllovrError::SlotIndexOccupied);
    }
    if !rebalance_if_needed && info.total_owed > 0 {
        return Err(AllovrError::StakePoolRebalanceRequired);
    }
    let ghost r0 = *stake_pool_registry;
    let ghost p0 = *stake_pool;
    if first_stake {
        let bound = stake.init(pool_index, slot_index, now);
        assert(bound is Ok);
    }
    let rebalanced_ok = rebalance(stake_pool_registry, stake_pool, pool_index);
    assert(rebalanced_ok is Ok);
    let ghost r_mid = *stake_pool_registry;
    let ghost p_mid = *stake_pool;
    let mid = match stake_pool_registry.pools[index] {
        Some(mid) => mid,
        None => {
            return Err(AllovrError::FatalError);
        },
    };
    proof {
        assert(rebalanced(r0, p0, index as int, r_mid, p_mid));
        lemma_entry_within_sums(r_mid.pools@, index as int);
        lemma_amount_within_sum(p_mid.stakes@, slot as int);
    }
    let old_slot = stake_pool.stakes[slot];
    stake_pool.total_staked = stake_pool.total_staked + amount;
    stake_pool.stakes[slot] = old_slot + amount;
    stake_pool_registry.total_staked = stake_pool_registry.total_staked + amount;
    let updated = StakePoolInfo {
        total_staked: mid.total_staked + amount,
        total_owed: mid.total_owed,
        pool_address: mid.pool_address,
    };
    stake_pool_registry.pools[index] = Some(updated);
    proof {
        lemma_sums_update(r_mid.pools@, index as int, Some(updated));
        lemma_sum_amounts_update(p_mid.stakes@, slot as int, (old_slot + amount) as u64);
        assert(stake_pool_registry.pools@ =~= r0.pools@.update(
            index as int,
            Some(
                StakePoolInfo {
                    total_staked: (info.total_staked + info.total_owed + amount) as u64,
                    total_owed: 0,
                    pool_address: info.pool_address,
                },
            ),
        ));
        assert forall|j: int| 0 <= j < ALLOVR_AOVR_STAKE_NUM_STAKES_IN_POOL implies #[trigger] (
        *stake_pool).stakes@[j] == p0.stakes@[j] + slot_share(
            p0.stakes@[j],
            p0.total_staked,
            info.total_owed,
        ) + (if j == slot as int {
            amount as int
        } else {
            0
        }) by {
            if info.total_owed > 0 {
                assert(p_mid.stakes@[j] == p0.stakes@[j] + slot_share(
                    p0.stakes@[j],
                    p0.total_staked,
                    info.total_owed,
                ));
            } else {
                assert(p_mid.stakes@[j] == p0.stakes@[j]);
                let q = (p0.stakes@[j] / p0.total_staked) as int;
                assert(q * 0 == 0) by (nonlinear_arith);
            }
        }
    }
    Ok(())
}

// ---------------------------------------------------------------------------
// Rebalancing on request
// ---------------------------------------------------------------------------

/// What an explicit rebalance request answers.
pub open spec fn rebalance_request_result(
    registry: StakePoolRegistry,
    pool_address: Address,
    pool_index: u8,
) -> Result<(), AllovrError> {
    registry.check_pool_at(pool_index as int, pool_address)
}

/// Checks that `pool_address` is the pool registered at `pool_index`, then
/// rebalances it.
pub fn handle_rebalance_staking_pool(
    stake_pool_registry: &mut StakePoolRegistry,
    stake_pool: &mut StakePool,
    pool_address: Address,
    pool_index: u8,
) -> (r: Result<(), AllovrError>)
    requires
        old(stake_pool_registry).wf(),
        old(stake_pool).wf(),
        old(stake_pool_registry).check_pool_at(pool_index as int, pool_address) is Ok ==> in_step(
            *old(stake_pool_registry),
            *old(stake_pool),
            pool_index as int,
        ),
    ensures
        r == rebalance_request_result(*old(stake_pool_registry), pool_address, pool_index),
        r is Err ==> *final(stake_pool_registry) == *old(stake_pool_registry) && *final(stake_pool)
            == *old(stake_pool),
        r is Ok ==> rebalanced(
            *old(stake_pool_registry),
            *old(stake_pool),
            pool_index as int,
            *final(stake_pool_registry),
            *final(stake_pool),
        ),
        final(stake_pool_registry).wf(),
        final(stake_pool).wf(),
        r is Ok ==> in_step(*final(stake_pool_registry), *final(stake_pool), pool_index as int),
{
    match stake_pool_registry.require_stake_pool_address_at_index(
        pool_index as usize,
        pool_address,
    ) {
        Err(e) => {
            return Err(e);
        },
        Ok(()) => {},
    }
    rebalance(stake_pool_registry, stake_pool, pool_index)
}

// ---------------------------------------------------------------------------
// Withdrawal requests
// ---------------------------------------------------------------------------

/// The most a participant holding `staked` in `pool` can ask to withdraw:
/// the slot's amount plus its share of what the pool is still owed.
pub open spec fn withdrawable(staked: u64, pool_total: u64, owed: u64) -> int {
    if owed > 0 {
        staked + slot_share(staked, pool_total, owed)
    } else {
        staked as int
    }
}

/// What a withdrawal request of `amount` answers.
pub open spec fn withdraw_result(
    registry: StakePoolRegistry,
    pool: StakePool,
    pool_address: Address,
    stake: StakeMetadata,
    amount: u64,
) -> Result<(), AllovrError> {
    if stake.initialised_date == 0 {
        Err(AllovrError::NoStakeExists)
    } else if registry.check_pool_at(stake.pool_index as int, pool_address) is Err {
        registry.check_pool_at(stake.pool_index as int, pool_address)
    } else if stake.slot_index as int >= ALLOVR_AOVR_STAKE_NUM_STAKES_IN_POOL {
        Err(AllovrError::InvalidSlotIndex)
    } else if amount > withdrawable(
        pool.stakes@[stake.slot_index as int],
        pool.total_staked,
        registry.entry(stake.pool_index as int)->Some_0.total_owed,
    ) {
        Err(AllovrError::WithdrawalAmountExceedsStakedAmount)
    } else {
        Ok(())
    }
}

/// Records a request to withdraw `amount` from the participant's slot,
/// replacing any earlier request. The amount may not exceed what the slot
/// holds plus its share of what the pool is still owed.
pub fn handle_withdraw_stake(
    stake_pool_registry: &StakePoolRegistry,
    stake_pool: &StakePool,
    pool_address: Address,
    stake: &mut StakeMetadata,
    amount: u64,
    now: i64,
) -> (r: Result<(), AllovrError>)
    requires
        stake_pool_registry.wf(),
        stake_pool.wf(),
        stake_pool_registry.check_pool_at(old(stake).pool_index as int, pool_address) is Ok
            ==> in_step(*stake_pool_registry, *stake_pool, old(stake).pool_index as int),
    ensures
        r == withdraw_result(*stake_pool_registry, *stake_pool, pool_address, *old(stake), amount),
        r is Err ==> *final(stake) == *old(stake),
        r is Ok ==> *final(stake) == (StakeMetadata {
            withdrawal_request: amount,
            withdrawal_request_date: Some(now),
            ..*old(stake)
        }),
{
    if stake.initialised_date == 0 {
        return Err(AllovrError::NoStakeExists);
    }
    let index = stake.pool_index as usize;
    match stake_pool_registry.require_stake_pool_address_at_index(index, pool_address) {
        Err(e) => {
            return Err(e);
        },
        Ok(()) => {},
    }
    let info = match stake_pool_registry.pools[index] {
        Some(info) => info,
        None => {
            return Err(AllovrError::FatalError);
        },
    };
    let slot = stake.slot_index as usize;
    if slot >= ALLOVR_AOVR_STAKE_NUM_STAKES_IN_POOL {
        return Err(AllovrError::InvalidSlotIndex);
    }
    let mut staked = stake_pool.stakes[slot];
    let pool_staked = stake_pool.total_staked;
    if info.total_owed > 0 {
        proof {
            lemma_entry_within_sums(stake_pool_registry.pools@, index as int);
            lemma_amount_within_sum(stake_pool.stakes@, slot as int);
            crate::utils::lemma_share_at_most_owed(staked, pool_staked, info.total_owed);
        }
        let share_of_total = staked / pool_staked;
        let owed_to_stake_holder = share_of_total * info.total_owed;
        assert(owed_to_stake_holder == slot_share(staked, pool_staked, info.total_owed));
        staked = staked + owed_to_stake_holder;
    }
    assert(staked == withdrawable(
        stake_pool.stakes@[slot as int],
        stake_pool.total_staked,
        info.total_owed,
    ));
    if amount > staked {
        return Err(AllovrError::WithdrawalAmountExceedsStakedAmount);
    }
    let recorded = stake.request_withdrawal(amount, now);
    assert(recorded is Ok);
    Ok(())
}

/// Clears the participant's withdrawal request.
pub fn handle_cancel_stake_withdrawal(stake: &mut StakeMetadata) -> (r: Result<(), AllovrError>)
    ensures
        r is Ok,
        *final(stake) == (StakeMetadata {
            withdrawal_request: 0,
            withdrawal_request_date: None,
            ..*old(stake)
        }),
{
    stake.cancel_withdrawal()
}

} // verus!
