use vstd::prelude::*;

use crate::constants::{ALLOVR_AOVR_STAKE_NUM_POOLS, INFLATION_INTERVAL_IN_SECONDS};
use crate::errors::AllovrError;
use crate::state::{
    lemma_entry_within_sums, lemma_prefix_staked, lemma_sums_nonnegative, lemma_sums_update,
    sum_owed, sum_staked, AllovrTokenState, InitAovrArgs, StakePoolInfo,
    StakePoolRegistry,
};

verus! {

/// The amount one emission run distributes: five percent of the supply a
/// year, paid out weekly.
pub open spec fn weekly_inflation(total_supply: u64) -> int {
    total_supply as int * 5 / 100 / 52
}

/// The part of the staking pot that a pool holding `staked` out of `total`
/// is owed: proportional to its stake, rounded down.
pub open spec fn pool_share(staked: u64, pot: int, total: u64) -> int {
    staked as int * pot / total as int
}

/// A registry entry after the pool's share of the staking pot was credited
/// to what it is owed.
pub open spec fn credited(p: Option<StakePoolInfo>, pot: int, total: u64) -> Option<StakePoolInfo> {
    match p {
        Some(info) => Some(
            StakePoolInfo {
                total_owed: (info.total_owed + pool_share(info.total_staked, pot, total)) as u64,
                ..info
            },
        ),
        None => None,
    }
}

/// What one emission run mints, and to whom.
#[derive(Debug, Clone, Copy, PartialEq, Eq, Structural)]
pub struct InflationPayout {
    /// Minted to the staking treasury: exactly what was credited to pools.
    pub staking: u64,
    /// Minted to the direct recipient: the rest.
    pub treasury: u64,
}

/// `r1` and `payout` are what an emission of `weekly` makes of `r0`. With
/// nothing staked, everything goes to the treasury. Otherwise a third of it
/// is the staking pot, split across the pools in proportion to their stake;
/// what the rounding leaves goes to the treasury too.
pub open spec fn emitted(
    r0: StakePoolRegistry,
    weekly: int,
    r1: StakePoolRegistry,
    payout: InflationPayout,
) -> bool {
    if r0.total_staked == 0 {
        r1 == r0 && payout.staking == 0 && payout.treasury == weekly
    } else {
        let pot = weekly / 3;
        &&& r1.total_staked == r0.total_staked
        &&& r1.pool_head == r0.pool_head
        &&& forall|i: int|
            0 <= i < ALLOVR_AOVR_STAKE_NUM_POOLS ==> #[trigger] r1.pools@[i] == credited(
                r0.pools@[i],
                pot,
                r0.total_staked,
            )
        &&& r1.total_owed == r0.total_owed + payout.staking
        &&& payout.staking <= pot
        &&& payout.staking + payout.treasury == weekly
    }
}

/// What an emission run at time `now` answers.
pub open spec fn inflation_result(aovr_state: AllovrTokenState, now: i64) -> Result<
    (),
    AllovrError,
> {
    if !aovr_state.minted {
        Err(AllovrError::AovrNotMinted)
    } else if now < aovr_state.next_inflation_due {
        Err(AllovrError::AovrInflationNotDue)
    } else {
        Ok(())
    }
}

/// The amount one emission run distributes for a supply of `total_supply`.
pub fn weekly_inflation_amount(total_supply: u64) -> (r: u64)
    ensures
        r == weekly_inflation(total_supply),
{
    let annual_inflation = (total_supply as u128) * 5 / 100;
    (annual_inflation / 52) as u64
}

/// A pool's share never exceeds the pot, and a pool with nothing staked
/// gets nothing.
pub proof fn lemma_pool_share_bounds(staked: u64, pot: int, total: u64)
    requires
        0 < total,
        staked <= total,
        0 <= pot,
    ensures
        0 <= pool_share(staked, pot, total) <= pot,
        pool_share(staked, pot, total) * total <= staked * pot,
        staked == 0 ==> pool_share(staked, pot, total) == 0,
{
    let s = staked as int;
    let t = total as int;
    assert(s * pot <= t * pot) by (nonlinear_arith)
        requires
            s <= t,
            0 <= pot,
    ;
    assert(0 <= s * pot) by (nonlinear_arith)
        requires
            0 <= s,
            0 <= pot,
    ;
    vstd::arithmetic::div_mod::lemma_div_is_ordered(s * pot, t * pot, t);
    vstd::arithmetic::div_mod::lemma_div_multiples_vanish(pot, t);
    vstd::arithmetic::div_mod::lemma_div_pos_is_pos(s * pot, t);
    let q = s * pot / t;
    assert(q * t <= s * pot) by (nonlinear_arith)
        requires
            0 < t,
            q == s * pot / t,
            0 <= s * pot,
    ;
    if s == 0 {
        assert(s * pot == 0);
    }
}

/// Runs one emission: checks the schedule, advances it, credits each pool
/// its share of the staking pot as owed, and says what to mint to the
/// staking treasury and to the direct recipient.
///
/// The schedule must be able to advance one more interval and count one
/// more run, and what is staked and owed plus the staking pot must fit in a
/// `u64`; callers check these before the call.
pub fn handle_aovr_inflation_run(
    aovr_state: &mut AllovrTokenState,
    stake_pool_registry: &mut StakePoolRegistry,
    total_supply: u64,
    now: i64,
) -> (r: Result<InflationPayout, AllovrError>)
    requires
        old(stake_pool_registry).wf(),
        old(aovr_state).next_inflation_due <= i64::MAX - INFLATION_INTERVAL_IN_SECONDS,
        old(aovr_state).inflation_run_count < u32::MAX,
        old(stake_pool_registry).total_staked + old(stake_pool_registry).total_owed
            + weekly_inflation(total_supply) / 3 <= u64::MAX,
    ensures
        r is Ok <==> inflation_result(*old(aovr_state), now) is Ok,
        r is Err ==> Err::<(), AllovrError>(r->Err_0) == inflation_result(*old(aovr_state), now)
            && *final(aovr_state) == *old(aovr_state) && *final(stake_pool_registry) == *old(
            stake_pool_registry,
        ),
        r is Ok ==> *final(aovr_state) == (AllovrTokenState {
            next_inflation_due: (old(aovr_state).next_inflation_due
                + INFLATION_INTERVAL_IN_SECONDS) as i64,
            inflation_run_count: (old(aovr_state).inflation_run_count + 1) as u32,
            ..*old(aovr_state)
        }),
        r is Ok ==> emitted(
            *old(stake_pool_registry),
            weekly_inflation(total_supply),
            *final(stake_pool_registry),
            r->Ok_0,
        ),
        final(stake_pool_registry).wf(),
{
    if !aovr_state.minted {
        return Err(AllovrError::AovrNotMinted);
    }
    if now < aovr_state.next_inflation_due {
        return Err(AllovrError::AovrInflationNotDue);
    }
    aovr_state.next_inflation_due = aovr_state.next_inflation_due + INFLATION_INTERVAL_IN_SECONDS;
    aovr_state.inflation_run_count = aovr_state.inflation_run_count + 1;

    let weekly = weekly_inflation_amount(total_supply);
    let total_staked = stake_pool_registry.total_staked;
    if total_staked == 0 {
        return Ok(InflationPayout { staking: 0, treasury: weekly });
    }
    let third = weekly / 3;
    let ghost r0 = *stake_pool_registry;
    let head = stake_pool_registry.pool_head as usize;
    let mut credited_total: u64 = 0;
    let mut i: usize = 0;
    while i < head
        invariant
            r0.wf(),
            0 <= i <= head,
            head == r0.pool_head,
            0 < total_staked,
            total_staked == r0.total_staked,
            third as int == weekly_inflation(total_supply) / 3,
            r0.total_staked + r0.total_owed + third <= u64::MAX,
            stake_pool_registry.total_staked == r0.total_staked,
            stake_pool_registry.total_owed == r0.total_owed,
            stake_pool_registry.pool_head == r0.pool_head,
            forall|k: int|
                0 <= k < i ==> #[trigger] stake_pool_registry.pools@[k] == credited(
                    r0.pools@[k],
                    third as int,
                    total_staked,
                ),
            forall|k: int|
                i <= k < ALLOVR_AOVR_STAKE_NUM_POOLS ==> #[trigger] stake_pool_registry.pools@[k]
                    == r0.pools@[k],
            sum_staked(stake_pool_registry.pools@) == sum_staked(r0.pools@),
            sum_owed(stake_pool_registry.pools@) == sum_owed(r0.pools@) + credited_total,
            credited_total * total_staked <= sum_staked(r0.pools@.take(i as int)) * third,
            credited_total <= third,
        decreases head - i,
    {
        let info = match stake_pool_registry.pools[i] {
            Some(info) => info,
            None => {
                return Err(AllovrError::FatalError);
            },
        };
        let ghost cur = stake_pool_registry.pools@;
        proof {
            assert(info == r0.pools@[i as int]->Some_0);
            lemma_entry_within_sums(r0.pools@, i as int);
            lemma_pool_share_bounds(info.total_staked, third as int, total_staked);
            lemma_prefix_staked(r0.pools@, i as int);
            let s = info.total_staked as int;
            let t = total_staked as int;
            let p = sum_staked(r0.pools@.take(i as int));
            let c = credited_total as int;
            let sh = pool_share(info.total_staked, third as int, total_staked);
            assert((c + sh) * t <= (p + s) * third) by (nonlinear_arith)
                requires
                    c * t <= p * third,
                    sh * t <= s * third,
            ;
            assert(p + s <= t);
            assert(c + sh <= third) by (nonlinear_arith)
                requires
                    (c + sh) * t <= (p + s) * third,
                    p + s <= t,
                    0 < t,
                    0 <= third,
            ;
            assert((info.total_staked as int) * (third as int) <= u128::MAX) by (nonlinear_arith)
                requires
                    info.total_staked <= u64::MAX,
                    third <= u64::MAX,
            ;
        }
        let share = ((info.total_staked as u128) * (third as u128) / (total_staked as u128)) as u64;
        let updated = StakePoolInfo {
            total_staked: info.total_staked,
            total_owed: info.total_owed + share,
            pool_address: info.pool_address,
        };
        stake_pool_registry.pools[i] = Some(updated);
        proof {
            lemma_sums_update(cur, i as int, Some(updated));
        }
        credited_total = credited_total + share;
        i = i + 1;
    }
    stake_pool_registry.total_owed = stake_pool_registry.total_owed + credited_total;
    proof {
        assert forall|k: int| 0 <= k < ALLOVR_AOVR_STAKE_NUM_POOLS implies #[trigger]
            stake_pool_registry.pools@[k] == credited(r0.pools@[k], third as int, total_staked) by {
            if k >= head {
                assert(r0.pools@[k] is None);
            }
        }
        lemma_sums_nonnegative(r0.pools@);
    }
    Ok(InflationPayout { staking: credited_total, treasury: weekly - credited_total })
}

/// Sets up the token state: nothing minted, no emission scheduled, and the
/// founders' addresses recorded.
pub fn handle_initialise_aovr(aovr_state: &mut AllovrTokenState, founders: InitAovrArgs) -> (r:
    Result<(), AllovrError>)
    ensures
        r is Ok,
        *final(aovr_state) == (AllovrTokenState {
            minted: false,
            next_inflation_due: 0,
            inflation_run_count: 0,
            founder_1: founders.founder_1,
            founder_2: founders.founder_2,
            founder_3: founders.founder_3,
            founder_4: founders.founder_4,
            founder_5: founders.founder_5,
            founder_6: founders.founder_6,
            founder_7: founders.founder_7,
            founder_8: founders.founder_8,
        }),
{
    aovr_state.minted = false;
    aovr_state.next_inflation_due = 0;
    aovr_state.inflation_run_count = 0;
    aovr_state.founder_1 = founders.founder_1;
    aovr_state.founder_2 = founders.founder_2;
    aovr_state.founder_3 = founders.founder_3;
    aovr_state.founder_4 = founders.founder_4;
    aovr_state.founder_5 = founders.founder_5;
    aovr_state.founder_6 = founders.founder_6;
    aovr_state.founder_7 = founders.founder_7;
    aovr_state.founder_8 = founders.founder_8;
    Ok(())
}

/// Marks the initial supply as minted and schedules the first emission one
/// interval after `now`. Fails if the supply was minted already.
pub fn handle_mint_aovr(aovr_state: &mut AllovrTokenState, now: i64) -> (r: Result<
    (),
    AllovrError,
>)
    requires
        now <= i64::MAX - INFLATION_INTERVAL_IN_SECONDS,
    ensures
        old(aovr_state).minted ==> r == Err::<(), AllovrError>(AllovrError::AovrAlreadyMinted)
            && *final(aovr_state) == *old(aovr_state),
        !old(aovr_state).minted ==> r is Ok && *final(aovr_state) == (AllovrTokenState {
            minted: true,
            next_inflation_due: (now + INFLATION_INTERVAL_IN_SECONDS) as i64,
            ..*old(aovr_state)
        }),
{
    if aovr_state.minted {
        return Err(AllovrError::AovrAlreadyMinted);
    }
    aovr_state.minted = true;
    aovr_state.next_inflation_due = now + INFLATION_INTERVAL_IN_SECONDS;
    Ok(())
}

/// Makes the next emission due at `now`.
pub fn handle_test_update_inflation_run(aovr_state: &mut AllovrTokenState, now: i64) -> (r:
    Result<(), AllovrError>)
    ensures
        r is Ok,
        *final(aovr_state) == (AllovrTokenState { next_inflation_due: now, ..*old(aovr_state) }),
{
    aovr_state.next_inflation_due = now;
    Ok(())
}

} // verus!
