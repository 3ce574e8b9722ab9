use vstd::prelude::*;

use crate::constants::{ALLOVR_AOVR_STAKE_NUM_POOLS, ALLOVR_AOVR_STAKE_NUM_STAKES_IN_POOL};
use crate::errors::AllovrError;
use crate::state::{
    lemma_amount_within_sum, lemma_entry_within_sums, lemma_sums_update, sum_amounts, StakePool,
    StakePoolInfo, StakePoolRegistry,
};

verus! {

/// The part of `owed` that a slot holding `stake` receives when its pool's
/// total is `total`: the stake is divided by the total first, and that
/// quotient is multiplied by what is owed.
pub open spec fn slot_share(stake: u64, total: u64, owed: u64) -> int {
    (stake / total) as int * owed as int
}

/// Sum of the quotients `s[j] / t`.
pub open spec fn quot_sum(s: Seq<u64>, t: u64) -> int
    decreases s.len(),
{
    if s.len() == 0 {
        0
    } else {
        quot_sum(s.drop_last(), t) + (s.last() / t) as int
    }
}

/// The pool record and the registry's entry at `index` agree on the staked
/// total (when an entry is registered there).
pub open spec fn in_step(registry: StakePoolRegistry, pool: StakePool, index: int) -> bool {
    registry.entry(index) is Some ==> registry.entry(index)->Some_0.total_staked
        == pool.total_staked
}

/// Whether the pool record agrees with the registry's entry at
/// `pool_index`; for records read back from storage.
pub fn pool_in_step(registry: &StakePoolRegistry, pool: &StakePool, pool_index: u8) -> (r: bool)
    ensures
        r == in_step(*registry, *pool, pool_index as int),
{
    let index = pool_index as usize;
    if index >= ALLOVR_AOVR_STAKE_NUM_POOLS {
        return true;
    }
    match registry.pools[index] {
        Some(info) => info.total_staked == pool.total_staked,
        None => true,
    }
}

/// What `rebalance` returns.
pub open spec fn rebalance_result(registry: StakePoolRegistry, index: int) -> Result<(), AllovrError> {
    if registry.entry(index) is Some {
        Ok(())
    } else {
        Err(AllovrError::InvalidPoolIndex)
    }
}

/// `(r1, p1)` is `(r0, p0)` after the owed amount of entry `index` was folded
/// into the pool's slots. Nothing changes when nothing is owed.
pub open spec fn rebalanced(
    r0: StakePoolRegistry,
    p0: StakePool,
    index: int,
    r1: StakePoolRegistry,
    p1: StakePool,
) -> bool {
    let info = r0.entry(index)->Some_0;
    if info.total_owed == 0 {
        r1 == r0 && p1 == p0
    } else {
        &&& p1.total_staked == p0.total_staked + info.total_owed
        &&& forall|j: int|
            0 <= j < ALLOVR_AOVR_STAKE_NUM_STAKES_IN_POOL ==> #[trigger] p1.stakes@[j]
                == p0.stakes@[j] + slot_share(p0.stakes@[j], p0.total_staked, info.total_owed)
        &&& r1.total_staked == r0.total_staked + info.total_owed
        &&& r1.total_owed == r0.total_owed - info.total_owed
        &&& r1.pool_head == r0.pool_head
        &&& r1.pools@ == r0.pools@.update(
            index,
            Some(
                StakePoolInfo {
                    total_staked: (info.total_staked + info.total_owed) as u64,
                    total_owed: 0,
                    pool_address: info.pool_address,
                },
            ),
        )
    }
}

/// A slot never receives more than what is owed.
pub proof fn lemma_share_at_most_owed(stake: u64, total: u64, owed: u64)
    requires
        0 < total,
        stake <= total,
    ensures
        0 <= slot_share(stake, total, owed) <= owed,
        stake / total <= 1,
{
    assert(stake / total <= 1) by (nonlinear_arith)
        requires
            0 < total,
            stake <= total,
    ;
    assert(0 <= slot_share(stake, total, owed) <= owed) by (nonlinear_arith)
        requires
            stake / total <= 1,
            0 <= stake / total,
            slot_share(stake, total, owed) == (stake / total) as int * owed as int,
    ;
}

/// The quotients never add up to more than the sum divided by `t`.
pub proof fn lemma_quot_sum_bound(s: Seq<u64>, t: u64)
    requires
        0 < t,
    ensures
        0 <= quot_sum(s, t),
        quot_sum(s, t) * t <= sum_amounts(s),
    decreases s.len(),
{
    if s.len() > 0 {
        lemma_quot_sum_bound(s.drop_last(), t);
        let a = quot_sum(s.drop_last(), t);
        let q = (s.last() / t) as int;
        let b = s.last() as int;
        assert(q * t <= b) by (nonlinear_arith)
            requires
                0 < t,
                q == b / t as int,
                0 <= b,
        ;
        assert((a + q) * t == a * t + q * t) by (nonlinear_arith);
    }
}

/// Folding `owed` into every slot adds `owed` once for every whole multiple
/// of the total that a slot holds.
pub proof fn lemma_rebalanced_sum(old_stakes: Seq<u64>, new_stakes: Seq<u64>, total: u64, owed: u64)
    requires
        0 < total,
        old_stakes.len() == new_stakes.len(),
        forall|j: int|
            0 <= j < old_stakes.len() ==> #[trigger] new_stakes[j] == old_stakes[j] + slot_share(
                old_stakes[j],
                total,
                owed,
            ),
    ensures
        sum_amounts(new_stakes) == sum_amounts(old_stakes) + quot_sum(old_stakes, total)
            * owed,
    decreases old_stakes.len(),
{
    if old_stakes.len() > 0 {
        let o = old_stakes.drop_last();
        let n = new_stakes.drop_last();
        assert forall|j: int| 0 <= j < o.len() implies #[trigger] n[j] == o[j] + slot_share(
            o[j],
            total,
            owed,
        ) by {
            assert(n[j] == new_stakes[j]);
        }
        lemma_rebalanced_sum(o, n, total, owed);
        let a = quot_sum(o, total);
        let q = (old_stakes.last() / total) as int;
        assert((a + q) * owed == a * owed + q * owed) by (nonlinear_arith);
        assert(new_stakes[new_stakes.len() - 1] == new_stakes.last());
    }
}

/// When the slots hold no more than the total, at most one share of `owed`
/// is handed out in all.
pub proof fn lemma_rebalance_hands_out_at_most_owed(stakes: Seq<u64>, total: u64)
    requires
        0 < total,
        sum_amounts(stakes) <= total,
    ensures
        0 <= quot_sum(stakes, total) <= 1,
{
    lemma_quot_sum_bound(stakes, total);
    let q = quot_sum(stakes, total);
    assert(q <= 1) by (nonlinear_arith)
        requires
            q * total <= total,
            0 < total,
            0 <= q,
    ;
}

/// Folds the owed amount of the pool registered at `pool_index` into its
/// slots, in proportion to what each slot holds, and moves that amount from
/// owed to staked in the pool, its registry entry and the registry's totals.
/// Does nothing when nothing is owed.
pub fn rebalance(
    stake_pool_registry: &mut StakePoolRegistry,
    stake_pool: &mut StakePool,
    pool_index: u8,
) -> (r: Result<(), AllovrError>)
    requires
        old(stake_pool_registry).wf(),
        old(stake_pool).wf(),
        in_step(*old(stake_pool_registry), *old(stake_pool), pool_index as int),
    ensures
        r == rebalance_result(*old(stake_pool_registry), pool_index as int),
        r is Err ==> *final(stake_pool_registry) == *old(stake_pool_registry) && *final(stake_pool)
            == *old(stake_pool),
        r is Ok ==> rebalanced(
            *old(stake_pool_registry),
            *old(stake_pool),
            pool_index as int,
            *final(stake_pool_registry),
            *final(stake_pool),
        ),
        final(stake_pool_registry).wf(),
        final(stake_pool).wf(),
        in_step(*final(stake_pool_registry), *final(stake_pool), pool_index as int),
{
    let index = pool_index as usize;
    if index >= ALLOVR_AOVR_STAKE_NUM_POOLS {
        return Err(AllovrError::InvalidPoolIndex);
    }
    let info = match stake_pool_registry.pools[index] {
        None => {
            return Err(AllovrError::InvalidPoolIndex);
        },
        Some(info) => info,
    };
    if info.total_owed == 0 {
        return Ok(());
    }
    let ghost r0 = *stake_pool_registry;
    let ghost old_stakes = stake_pool.stakes@;
    let total = stake_pool.total_staked;
    let owed = info.total_owed;
    proof {
        assert(r0.pools@[index as int] is Some);
        lemma_entry_within_sums(r0.pools@, index as int);
        assert(total > 0);
        assert(total + owed <= u64::MAX);
    }
    let mut j: usize = 0;
    while j < ALLOVR_AOVR_STAKE_NUM_STAKES_IN_POOL
        invariant
            0 <= j <= ALLOVR_AOVR_STAKE_NUM_STAKES_IN_POOL,
            0 < total,
            total + owed <= u64::MAX,
            sum_amounts(old_stakes) <= total,
            old_stakes.len() == ALLOVR_AOVR_STAKE_NUM_STAKES_IN_POOL,
            stake_pool.total_staked == total,
            forall|k: int|
                0 <= k < j ==> #[trigger] stake_pool.stakes@[k] == old_stakes[k] + slot_share(
                    old_stakes[k],
                    total,
                    owed,
                ),
            forall|k: int|
                j <= k < ALLOVR_AOVR_STAKE_NUM_STAKES_IN_POOL ==> #[trigger] stake_pool.stakes@[k]
                    == old_stakes[k],
        decreases ALLOVR_AOVR_STAKE_NUM_STAKES_IN_POOL - j,
    {
        let s = stake_pool.stakes[j];
        proof {
            lemma_amount_within_sum(old_stakes, j as int);
            lemma_share_at_most_owed(s, total, owed);
        }
        let share = s / total * owed;
        stake_pool.stakes[j] = s + share;
        j = j + 1;
    }
    proof {
        lemma_rebalanced_sum(old_stakes, stake_pool.stakes@, total, owed);
        lemma_rebalance_hands_out_at_most_owed(old_stakes, total);
        let q = quot_sum(old_stakes, total);
        assert(q * owed <= owed) by (nonlinear_arith)
            requires
                0 <= q <= 1,
        ;
    }
    stake_pool.total_staked = total + owed;
    stake_pool_registry.total_staked = stake_pool_registry.total_staked + owed;
    stake_pool_registry.total_owed = stake_pool_registry.total_owed - owed;
    let updated = StakePoolInfo {
        total_staked: info.total_staked + owed,
        total_owed: 0,
        pool_address: info.pool_address,
    };
    stake_pool_registry.pools[index] = Some(updated);
    proof {
        lemma_sums_update(r0.pools@, index as int, Some(updated));
        assert forall|j: int| 0 <= j < ALLOVR_AOVR_STAKE_NUM_STAKES_IN_POOL implies #[trigger] (
        *stake_pool).stakes@[j] == old_stakes[j] + slot_share(old_stakes[j], total, owed) by {}
    }
    Ok(())
}

} // verus!
