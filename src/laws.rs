use vstd::prelude::*;

use crate::constants::{ALLOVR_AOVR_STAKE_MINIMUM_STAKE, ALLOVR_AOVR_STAKE_NUM_POOLS};
use crate::errors::AllovrError;
use crate::inflation::{credited, emitted, InflationPayout};
use crate::processors::{register_result, registered, stake_record_after, stake_result, staked_into};
use crate::state::{
    sum_amounts, sum_staked, Address, StakeMetadata,
    StakePool, StakePoolRegistry,
};
use crate::utils::{
    in_step, lemma_rebalance_hands_out_at_most_owed, lemma_rebalanced_sum, quot_sum, rebalanced,
};

verus! {

/// Sum of the pools' own staked totals.
pub open spec fn sum_pool_totals(pools: Seq<StakePool>) -> int
    decreases pools.len(),
{
    if pools.len() == 0 {
        0
    } else {
        sum_pool_totals(pools.drop_last()) + pools.last().total_staked as int
    }
}

/// A registry together with the pool records registered in it, by index:
/// the registry is well formed, each pool is, and each pool agrees with its
/// registry entry.
pub open spec fn ledger_wf(registry: StakePoolRegistry, pools: Seq<StakePool>) -> bool {
    &&& registry.wf()
    &&& pools.len() == registry.pool_head
    &&& forall|i: int| 0 <= i < pools.len() ==> (#[trigger] pools[i]).wf()
    &&& forall|i: int| 0 <= i < pools.len() ==> in_step(registry, #[trigger] pools[i], i)
}

/// The registry's staked sum over its first `n` entries equals the pools'
/// own totals over the first `n` pools.
proof fn lemma_prefix_totals(registry: StakePoolRegistry, pools: Seq<StakePool>, n: int)
    requires
        ledger_wf(registry, pools),
        0 <= n <= pools.len(),
    ensures
        sum_staked(registry.pools@.take(n)) == sum_pool_totals(pools.take(n)),
    decreases n,
{
    if n > 0 {
        lemma_prefix_totals(registry, pools, n - 1);
        assert(registry.pools@.take(n).drop_last() =~= registry.pools@.take(n - 1));
        assert(pools.take(n).drop_last() =~= pools.take(n - 1));
        assert(in_step(registry, pools[n - 1], n - 1));
        assert(registry.pools@[n - 1] is Some);
    }
}

/// The absent entries from `n` on add nothing to the staked sum.
proof fn lemma_tail_absent(registry: StakePoolRegistry, n: int)
    requires
        registry.wf(),
        registry.pool_head <= n <= ALLOVR_AOVR_STAKE_NUM_POOLS,
    ensures
        sum_staked(registry.pools@.take(n)) == sum_staked(
            registry.pools@.take(registry.pool_head as int),
        ),
    decreases n,
{
    if n > registry.pool_head {
        lemma_tail_absent(registry, n - 1);
        assert(registry.pools@.take(n).drop_last() =~= registry.pools@.take(n - 1));
        assert(registry.pools@[n - 1] is None);
    }
}

/// Conservation: in a well-formed ledger the registry's staked total is the
/// sum of every pool's own staked total, and no pool's slots hold more than
/// that pool's total (the difference is rounding dust). Every operation of
/// the ledger keeps it well formed.
pub proof fn lemma_conservation(registry: StakePoolRegistry, pools: Seq<StakePool>)
    requires
        ledger_wf(registry, pools),
    ensures
        registry.total_staked == sum_pool_totals(pools),
        forall|i: int|
            0 <= i < pools.len() ==> sum_amounts(#[trigger] pools[i].stakes@)
                <= pools[i].total_staked,
{
    lemma_prefix_totals(registry, pools, pools.len() as int);
    lemma_tail_absent(registry, ALLOVR_AOVR_STAKE_NUM_POOLS as int);
    assert(registry.pools@.take(ALLOVR_AOVR_STAKE_NUM_POOLS as int) =~= registry.pools@);
    assert(pools.take(pools.len() as int) =~= pools);
    assert forall|i: int| 0 <= i < pools.len() implies sum_amounts(#[trigger] pools[i].stakes@)
        <= pools[i].total_staked by {
        assert(pools[i].wf());
    }
}

/// A rebalance of pool `i` keeps the whole ledger well formed: the other
/// pools' entries are untouched and pool `i` stays in step with its entry.
pub proof fn lemma_ledger_after_rebalance(
    r0: StakePoolRegistry,
    pools: Seq<StakePool>,
    i: int,
    r1: StakePoolRegistry,
    p1: StakePool,
)
    requires
        ledger_wf(r0, pools),
        0 <= i < pools.len(),
        rebalanced(r0, pools[i], i, r1, p1),
        r1.wf(),
        p1.wf(),
    ensures
        ledger_wf(r1, pools.update(i, p1)),
{
    assert(in_step(r0, pools[i], i));
    assert(r0.pools@[i] is Some);
    let ps = pools.update(i, p1);
    assert forall|k: int| 0 <= k < ps.len() implies in_step(r1, #[trigger] ps[k], k) by {
        if k != i {
            assert(in_step(r0, pools[k], k));
        }
    }
}

/// A stake into pool `i` keeps the whole ledger well formed.
pub proof fn lemma_ledger_after_stake(
    r0: StakePoolRegistry,
    pools: Seq<StakePool>,
    i: int,
    slot: int,
    amount: u64,
    r1: StakePoolRegistry,
    p1: StakePool,
)
    requires
        ledger_wf(r0, pools),
        0 <= i < pools.len(),
        staked_into(r0, pools[i], i, slot, amount, r1, p1),
        r1.wf(),
        p1.wf(),
    ensures
        ledger_wf(r1, pools.update(i, p1)),
{
    assert(in_step(r0, pools[i], i));
    assert(r0.pools@[i] is Some);
    let ps = pools.update(i, p1);
    assert forall|k: int| 0 <= k < ps.len() implies in_step(r1, #[trigger] ps[k], k) by {
        if k != i {
            assert(in_step(r0, pools[k], k));
        }
    }
}

/// An emission run keeps the whole ledger well formed: it credits owed
/// amounts and leaves every staked total as it was.
pub proof fn lemma_ledger_after_emission(
    r0: StakePoolRegistry,
    pools: Seq<StakePool>,
    weekly: int,
    r1: StakePoolRegistry,
    payout: InflationPayout,
)
    requires
        ledger_wf(r0, pools),
        emitted(r0, weekly, r1, payout),
        r1.wf(),
    ensures
        ledger_wf(r1, pools),
{
    if r0.total_staked != 0 {
        assert forall|k: int| 0 <= k < pools.len() implies in_step(r1, #[trigger] pools[k], k) by {
            assert(in_step(r0, pools[k], k));
            assert(r1.pools@[k] == credited(r0.pools@[k], weekly / 3, r0.total_staked));
        }
    }
}

/// Registering a pool appends it to the ledger and keeps it well formed.
pub proof fn lemma_ledger_after_register(
    r0: StakePoolRegistry,
    pools: Seq<StakePool>,
    address: Address,
    r1: StakePoolRegistry,
    pool: StakePool,
)
    requires
        ledger_wf(r0, pools),
        registered(r0, r0.pool_head as int, address, r1),
        r1.wf(),
        pool.wf(),
        pool.total_staked == 0,
    ensures
        ledger_wf(r1, pools.push(pool)),
{
    let ps = pools.push(pool);
    assert forall|k: int| 0 <= k < ps.len() implies in_step(r1, #[trigger] ps[k], k) by {
        if k < pools.len() {
            assert(ps[k] == pools[k]);
            assert(in_step(r0, pools[k], k));
        }
    }
    assert forall|k: int| 0 <= k < ps.len() implies (#[trigger] ps[k]).wf() by {
        if k < pools.len() {
            assert(ps[k] == pools[k]);
        }
    }
}

/// Rounding dust of one rebalance: the pool's total grows by exactly what
/// was owed, its slots by what the per-slot division hands out, and the
/// difference, the dust this rebalance adds, lies between nothing and what
/// was owed.
pub proof fn lemma_rebalance_dust(
    r0: StakePoolRegistry,
    p0: StakePool,
    index: int,
    r1: StakePoolRegistry,
    p1: StakePool,
)
    requires
        r0.wf(),
        p0.wf(),
        in_step(r0, p0, index),
        r0.entry(index) is Some,
        rebalanced(r0, p0, index, r1, p1),
    ensures
        p1.total_staked == p0.total_staked + r0.entry(index)->Some_0.total_owed,
        p1.dust() == p0.dust() + r0.entry(index)->Some_0.total_owed - quot_sum(
            p0.stakes@,
            p0.total_staked,
        ) * r0.entry(index)->Some_0.total_owed,
        p0.dust() <= p1.dust() <= p0.dust() + r0.entry(index)->Some_0.total_owed,
{
    let owed = r0.entry(index)->Some_0.total_owed;
    if owed > 0 {
        assert(r0.pools@[index] is Some);
        assert(p0.total_staked > 0);
        assert forall|j: int| 0 <= j < p0.stakes@.len() implies #[trigger] p1.stakes@[j]
            == p0.stakes@[j] + crate::utils::slot_share(p0.stakes@[j], p0.total_staked, owed) by {
            assert(p1.stakes@[j] == p0.stakes@[j] + crate::utils::slot_share(
                p0.stakes@[j],
                p0.total_staked,
                owed,
            ));
        }
        lemma_rebalanced_sum(p0.stakes@, p1.stakes@, p0.total_staked, owed);
        lemma_rebalance_hands_out_at_most_owed(p0.stakes@, p0.total_staked);
        let q = quot_sum(p0.stakes@, p0.total_staked);
        assert(0 <= q * owed <= owed) by (nonlinear_arith)
            requires
                0 <= q <= 1,
                0 <= owed,
        ;
    } else {
        let q = quot_sum(p0.stakes@, p0.total_staked);
        assert(q * owed == 0) by (nonlinear_arith)
            requires
                owed == 0,
        ;
    }
}

/// Idempotence: rebalancing a pool a second time, with no stake in between,
/// changes nothing.
pub proof fn lemma_rebalance_idempotent(
    r0: StakePoolRegistry,
    p0: StakePool,
    index: int,
    r1: StakePoolRegistry,
    p1: StakePool,
    r2: StakePoolRegistry,
    p2: StakePool,
)
    requires
        r0.wf(),
        r0.entry(index) is Some,
        rebalanced(r0, p0, index, r1, p1),
        rebalanced(r1, p1, index, r2, p2),
    ensures
        r1.entry(index) is Some,
        r1.entry(index)->Some_0.total_owed == 0,
        r2 == r1,
        p2 == p1,
{
    assert(r1.pools@[index] is Some);
}

/// Sequential registration: on a registry with no pool yet, index 2 is
/// refused as not the head, index 0 is accepted, and once index 0 is
/// registered a second registration at 0 is refused as existing.
pub proof fn lemma_sequential_registration(
    r0: StakePoolRegistry,
    address: Address,
    r1: StakePoolRegistry,
)
    requires
        r0.wf(),
        r0.pool_head == 0,
        registered(r0, 0, address, r1),
    ensures
        register_result(r0, 2) == Err::<(), AllovrError>(AllovrError::PoolIndexMismatch),
        register_result(r0, 0) is Ok,
        register_result(r1, 0) == Err::<(), AllovrError>(AllovrError::PoolAlreadyExists),
{
    assert(r0.pools@[2] is None);
    assert(r0.pools@[0] is None);
    assert(r1.pools@[0] is Some);
}

/// Slot binding permanence: once a first stake has bound a record to a pool
/// and slot (at a nonzero time), a stake naming another slot is refused,
/// while a stake of at least the minimum into the same pool and slot, with
/// rebalancing allowed, is accepted whenever the pool is the one registered
/// there, and adds at least its amount to the slot.
pub proof fn lemma_slot_binding_permanent(
    stake0: StakeMetadata,
    pool_index: u8,
    slot_index: u8,
    now: i64,
    registry: StakePoolRegistry,
    pool: StakePool,
    pool_address: Address,
    other_slot: u8,
    amount: u64,
    rebalance_if_needed: bool,
    r2: StakePoolRegistry,
    p2: StakePool,
)
    requires
        stake0.initialised_date == 0,
        now != 0,
        (slot_index as int) < crate::constants::ALLOVR_AOVR_STAKE_NUM_STAKES_IN_POOL,
        other_slot != slot_index,
        amount >= ALLOVR_AOVR_STAKE_MINIMUM_STAKE,
    ensures
        ({
            let stake1 = stake_record_after(stake0, pool_index, slot_index, now);
            &&& stake1.pool_index == pool_index
            &&& stake1.slot_index == slot_index
            &&& stake_result(
                registry,
                pool,
                stake1,
                pool_address,
                pool_index,
                other_slot,
                amount,
                rebalance_if_needed,
            ) == Err::<(), AllovrError>(AllovrError::StakeAlreadyInitialised)
            &&& registry.check_pool_at(pool_index as int, pool_address) is Ok ==> stake_result(
                registry,
                pool,
                stake1,
                pool_address,
                pool_index,
                slot_index,
                amount,
                true,
            ) is Ok
        }),
        registry.wf() && pool.wf() && registry.entry(pool_index as int) is Some && in_step(
            registry,
            pool,
            pool_index as int,
        ) && staked_into(
            registry,
            pool,
            pool_index as int,
            slot_index as int,
            amount,
            r2,
            p2,
        ) ==> p2.stakes@[slot_index as int] >= pool.stakes@[slot_index as int] + amount,
{
    if registry.wf() && pool.wf() && registry.entry(pool_index as int) is Some && in_step(
        registry,
        pool,
        pool_index as int,
    ) && staked_into(
        registry,
        pool,
        pool_index as int,
        slot_index as int,
        amount,
        r2,
        p2,
    ) {
        let j = slot_index as int;
        let owed = registry.entry(pool_index as int)->Some_0.total_owed;
        let q = (pool.stakes@[j] / pool.total_staked) as int;
        assert(p2.stakes@[j] == pool.stakes@[j] + crate::utils::slot_share(
            pool.stakes@[j],
            pool.total_staked,
            owed,
        ) + amount);
        if owed > 0 {
            assert(registry.pools@[pool_index as int] is Some);
            assert(pool.total_staked > 0);
            assert(0 <= q * owed) by (nonlinear_arith)
                requires
                    q == (pool.stakes@[j] / pool.total_staked) as int,
                    0 <= pool.stakes@[j],
                    0 < pool.total_staked,
                    0 <= owed,
            ;
        } else {
            assert(q * owed == 0) by (nonlinear_arith)
                requires
                    owed == 0,
            ;
        }
    }
}

/// Minimum stake: an amount one below the minimum is refused for that
/// reason, and the minimum itself passes that check (the bound is
/// inclusive).
pub proof fn lemma_minimum_stake_boundary(
    registry: StakePoolRegistry,
    pool: StakePool,
    stake: StakeMetadata,
    pool_address: Address,
    pool_index: u8,
    slot_index: u8,
    rebalance_if_needed: bool,
)
    ensures
        stake_result(
            registry,
            pool,
            stake,
            pool_address,
            pool_index,
            slot_index,
            (ALLOVR_AOVR_STAKE_MINIMUM_STAKE - 1) as u64,
            rebalance_if_needed,
        ) == Err::<(), AllovrError>(AllovrError::MinimumStakeAmount),
        stake_result(
            registry,
            pool,
            stake,
            pool_address,
            pool_index,
            slot_index,
            ALLOVR_AOVR_STAKE_MINIMUM_STAKE,
            rebalance_if_needed,
        ) != Err::<(), AllovrError>(AllovrError::MinimumStakeAmount),
{
}

} // verus!
