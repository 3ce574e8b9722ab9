use vstd::prelude::*;

use crate::constants::{ALLOVR_AOVR_STAKE_NUM_POOLS, ALLOVR_AOVR_STAKE_NUM_STAKES_IN_POOL};
use crate::errors::AllovrError;

verus! {

/// The identity of an on-chain record: the 32 bytes of its public key.
#[derive(Debug, Clone, Copy)]
pub struct Address {
    pub bytes: [u8; 32],
}

impl Address {
    pub fn new(bytes: [u8; 32]) -> (r: Address)
        ensures
            r.bytes == bytes,
    {
        Address { bytes }
    }

    /// Whether two addresses hold the same bytes.
    pub fn same_as(&self, other: &Address) -> (r: bool)
        ensures
            r == (self.bytes@ == other.bytes@),
    {
        let mut i: usize = 0;
        while i < 32
            invariant
                0 <= i <= 32,
                forall|k: int| 0 <= k < i ==> self.bytes@[k] == other.bytes@[k],
            decreases 32 - i,
        {
            if self.bytes[i] != other.bytes[i] {
                return false;
            }
            i = i + 1;
        }
        assert(self.bytes@ =~= other.bytes@);
        true
    }
}

// ---------------------------------------------------------------------------
// Stake pool registry
// ---------------------------------------------------------------------------

/// The registry's summary of one pool: its staked and owed totals and the
/// address of the pool record it mirrors.
#[derive(Debug, Clone, Copy)]
pub struct StakePoolInfo {
    pub total_staked: u64,
    pub total_owed: u64,
    pub pool_address: Address,
}

/// The same summary as it is handed in by a client.
#[derive(Debug, Clone, Copy)]
pub struct RpcStakePoolInfo {
    pub total_staked: u64,
    pub total_owed: u64,
    pub pool_address: Address,
}

impl From<RpcStakePoolInfo> for StakePoolInfo {
    fn from(e: RpcStakePoolInfo) -> (r: StakePoolInfo) {
        StakePoolInfo {
            total_staked: e.total_staked,
            total_owed: e.total_owed,
            pool_address: e.pool_address,
        }
    }
}

impl vstd::std_specs::convert::FromSpecImpl<RpcStakePoolInfo> for StakePoolInfo {
    open spec fn obeys_from_spec() -> bool {
        true
    }

    open spec fn from_spec(e: RpcStakePoolInfo) -> StakePoolInfo {
        StakePoolInfo {
            total_staked: e.total_staked,
            total_owed: e.total_owed,
            pool_address: e.pool_address,
        }
    }
}

/// The directory of all pools. Pools are registered strictly in index order:
/// the entries below `pool_head` are present, those from it on are absent.
#[derive(Debug, Clone, Copy)]
pub struct StakePoolRegistry {
    pub total_staked: u64,
    pub total_owed: u64,
    pub pool_head: u8,
    pub pools: [Option<StakePoolInfo>; ALLOVR_AOVR_STAKE_NUM_POOLS],
}

/// Staked amount of a registry entry (zero for an absent one).
pub open spec fn staked_of(p: Option<StakePoolInfo>) -> int {
    match p {
        Some(info) => info.total_staked as int,
        None => 0,
    }
}

/// Owed amount of a registry entry (zero for an absent one).
pub open spec fn owed_of(p: Option<StakePoolInfo>) -> int {
    match p {
        Some(info) => info.total_owed as int,
        None => 0,
    }
}

/// Sum of the staked amounts of the entries.
pub open spec fn sum_staked(pools: Seq<Option<StakePoolInfo>>) -> int
    decreases pools.len(),
{
    if pools.len() == 0 {
        0
    } else {
        sum_staked(pools.drop_last()) + staked_of(pools.last())
    }
}

/// Sum of the owed amounts of the entries.
pub open spec fn sum_owed(pools: Seq<Option<StakePoolInfo>>) -> int
    decreases pools.len(),
{
    if pools.len() == 0 {
        0
    } else {
        sum_owed(pools.drop_last()) + owed_of(pools.last())
    }
}

impl StakePoolRegistry {
    /// The registry's invariant: entries are present exactly below the head,
    /// the grand totals are the sums over the entries, an entry is owed
    /// something only when something is staked in it, and staked plus owed
    /// value fits in a `u64`.
    pub open spec fn wf(&self) -> bool {
        &&& self.pool_head as int <= ALLOVR_AOVR_STAKE_NUM_POOLS
        &&& forall|i: int|
            0 <= i < ALLOVR_AOVR_STAKE_NUM_POOLS ==> (#[trigger] self.pools@[i] is Some <==> i
                < self.pool_head)
        &&& forall|i: int|
            0 <= i < ALLOVR_AOVR_STAKE_NUM_POOLS && #[trigger] self.pools@[i] is Some
                && self.pools@[i]->Some_0.total_owed > 0 ==> self.pools@[i]->Some_0.total_staked
                > 0
        &&& self.total_staked == sum_staked(self.pools@)
        &&& self.total_owed == sum_owed(self.pools@)
        &&& self.total_staked + self.total_owed <= u64::MAX
    }

    /// The entry at `index`, if one is registered there.
    pub open spec fn entry(&self, index: int) -> Option<StakePoolInfo> {
        if 0 <= index < ALLOVR_AOVR_STAKE_NUM_POOLS {
            self.pools@[index]
        } else {
            None
        }
    }

    /// What `require_stake_pool_address_at_index` answers.
    pub open spec fn check_pool_at(&self, index: int, address: Address) -> Result<(), AllovrError> {
        match self.entry(index) {
            None => Err(AllovrError::InvalidPoolIndex),
            Some(info) => if info.pool_address.bytes@ == address.bytes@ {
                Ok(())
            } else {
                Err(AllovrError::InvalidPoolAddress)
            },
        }
    }

    /// An empty registry.
    pub fn new() -> (r: StakePoolRegistry)
        ensures
            r.wf(),
            r.total_staked == 0,
            r.total_owed == 0,
            r.pool_head == 0,
    {
        let r = StakePoolRegistry {
            total_staked: 0,
            total_owed: 0,
            pool_head: 0,
            pools: [None; ALLOVR_AOVR_STAKE_NUM_POOLS],
        };
        proof {
            lemma_sums_of_empty(r.pools@);
        }
        r
    }

    /// Resets the registry to an empty one.
    pub fn init(&mut self)
        ensures
            final(self).wf(),
            final(self).total_staked == 0,
            final(self).total_owed == 0,
            final(self).pool_head == 0,
    {
        *self = StakePoolRegistry::new();
    }

    /// Whether the registry satisfies its invariant; for records read back
    /// from storage.
    pub fn is_well_formed(&self) -> (r: bool)
        ensures
            r == self.wf(),
    {
        if self.pool_head as usize > ALLOVR_AOVR_STAKE_NUM_POOLS {
            return false;
        }
        let mut staked: u128 = 0;
        let mut owed: u128 = 0;
        let mut i: usize = 0;
        while i < ALLOVR_AOVR_STAKE_NUM_POOLS
            invariant
                0 <= i <= ALLOVR_AOVR_STAKE_NUM_POOLS,
                self.pool_head as int <= ALLOVR_AOVR_STAKE_NUM_POOLS,
                staked == sum_staked(self.pools@.take(i as int)),
                owed == sum_owed(self.pools@.take(i as int)),
                staked <= i * (u64::MAX as int),
                owed <= i * (u64::MAX as int),
                forall|k: int|
                    0 <= k < i ==> (#[trigger] self.pools@[k] is Some <==> k < self.pool_head),
                forall|k: int|
                    0 <= k < i && #[trigger] self.pools@[k] is Some
                        && self.pools@[k]->Some_0.total_owed > 0
                        ==> self.pools@[k]->Some_0.total_staked > 0,
            decreases ALLOVR_AOVR_STAKE_NUM_POOLS - i,
        {
            proof {
                assert(self.pools@.take(i + 1).drop_last() =~= self.pools@.take(i as int));
            }
            match self.pools[i] {
                Some(info) => {
                    if i >= self.pool_head as usize {
                        return false;
                    }
                    if info.total_owed > 0 && info.total_staked == 0 {
                        return false;
                    }
                    staked = staked + info.total_staked as u128;
                    owed = owed + info.total_owed as u128;
                },
                None => {
                    if i < self.pool_head as usize {
                        return false;
                    }
                },
            }
            i = i + 1;
        }
        proof {
            assert(self.pools@.take(ALLOVR_AOVR_STAKE_NUM_POOLS as int) =~= self.pools@);
        }
        staked == self.total_staked as u128 && owed == self.total_owed as u128
            && self.total_staked as u128 + self.total_owed as u128 <= u64::MAX as u128
    }

    /// Checks that a pool is registered at `pool_index` and that its recorded
    /// address is `address`.
    pub fn require_stake_pool_address_at_index(&self, pool_index: usize, address: Address) -> (r:
        Result<(), AllovrError>)
        ensures
            r == self.check_pool_at(pool_index as int, address),
    {
        if pool_index >= ALLOVR_AOVR_STAKE_NUM_POOLS {
            return Err(AllovrError::InvalidPoolIndex);
        }
        match self.pools[pool_index] {
            None => Err(AllovrError::InvalidPoolIndex),
            Some(info) => {
                if info.pool_address.same_as(&address) {
                    Ok(())
                } else {
                    Err(AllovrError::InvalidPoolAddress)
                }
            },
        }
    }
}

/// Both sums over entries that are all absent are zero.
pub proof fn lemma_sums_of_empty(pools: Seq<Option<StakePoolInfo>>)
    requires
        forall|i: int| 0 <= i < pools.len() ==> #[trigger] pools[i] is None,
    ensures
        sum_staked(pools) == 0,
        sum_owed(pools) == 0,
    decreases pools.len(),
{
    if pools.len() > 0 {
        lemma_sums_of_empty(pools.drop_last());
    }
}

/// Replacing one entry changes each sum by the difference of the two entries.
pub proof fn lemma_sums_update(pools: Seq<Option<StakePoolInfo>>, i: int, x: Option<StakePoolInfo>)
    requires
        0 <= i < pools.len(),
    ensures
        sum_staked(pools.update(i, x)) == sum_staked(pools) - staked_of(pools[i]) + staked_of(x),
        sum_owed(pools.update(i, x)) == sum_owed(pools) - owed_of(pools[i]) + owed_of(x),
    decreases pools.len(),
{
    let u = pools.update(i, x);
    if i == pools.len() - 1 {
        assert(u.drop_last() =~= pools.drop_last());
    } else {
        lemma_sums_update(pools.drop_last(), i, x);
        assert(u.drop_last() =~= pools.drop_last().update(i, x));
    }
}

/// Each entry's amounts are bounded by the sums.
pub proof fn lemma_entry_within_sums(pools: Seq<Option<StakePoolInfo>>, i: int)
    requires
        0 <= i < pools.len(),
    ensures
        0 <= staked_of(pools[i]) <= sum_staked(pools),
        0 <= owed_of(pools[i]) <= sum_owed(pools),
    decreases pools.len(),
{
    lemma_sums_nonnegative(pools.drop_last());
    if i < pools.len() - 1 {
        lemma_entry_within_sums(pools.drop_last(), i);
    }
}

/// The staked sum over the first `i` entries grows entry by entry and never
/// exceeds the whole sum.
pub proof fn lemma_prefix_staked(pools: Seq<Option<StakePoolInfo>>, i: int)
    requires
        0 <= i < pools.len(),
    ensures
        sum_staked(pools.take(i + 1)) == sum_staked(pools.take(i)) + staked_of(pools[i]),
        sum_staked(pools.take(i + 1)) <= sum_staked(pools),
    decreases pools.len(),
{
    assert(pools.take(i + 1).drop_last() =~= pools.take(i));
    lemma_sums_nonnegative(pools.drop_last());
    if i + 1 == pools.len() {
        assert(pools.take(i + 1) =~= pools);
    } else {
        lemma_prefix_staked(pools.drop_last(), i);
        assert(pools.drop_last().take(i + 1) =~= pools.take(i + 1));
        assert(pools.drop_last().take(i) =~= pools.take(i));
    }
}

/// Both sums are nonnegative.
pub proof fn lemma_sums_nonnegative(pools: Seq<Option<StakePoolInfo>>)
    ensures
        sum_staked(pools) >= 0,
        sum_owed(pools) >= 0,
    decreases pools.len(),
{
    if pools.len() > 0 {
        lemma_sums_nonnegative(pools.drop_last());
    }
}

// ---------------------------------------------------------------------------
// Stake pool
// ---------------------------------------------------------------------------

/// Sum of a sequence of amounts.
pub open spec fn sum_amounts(s: Seq<u64>) -> int
    decreases s.len(),
{
    if s.len() == 0 {
        0
    } else {
        sum_amounts(s.drop_last()) + s.last() as int
    }
}

/// Replacing one amount changes the sum by the difference.
pub proof fn lemma_sum_amounts_update(s: Seq<u64>, j: int, v: u64)
    requires
        0 <= j < s.len(),
    ensures
        sum_amounts(s.update(j, v)) == sum_amounts(s) - s[j] + v,
    decreases s.len(),
{
    let u = s.update(j, v);
    if j == s.len() - 1 {
        assert(u.drop_last() =~= s.drop_last());
    } else {
        lemma_sum_amounts_update(s.drop_last(), j, v);
        assert(u.drop_last() =~= s.drop_last().update(j, v));
    }
}

/// Each amount is bounded by the sum.
pub proof fn lemma_amount_within_sum(s: Seq<u64>, j: int)
    requires
        0 <= j < s.len(),
    ensures
        s[j] <= sum_amounts(s),
    decreases s.len(),
{
    lemma_sum_amounts_nonnegative(s.drop_last());
    if j < s.len() - 1 {
        lemma_amount_within_sum(s.drop_last(), j);
    }
}

/// A sum of amounts is nonnegative.
pub proof fn lemma_sum_amounts_nonnegative(s: Seq<u64>)
    ensures
        sum_amounts(s) >= 0,
    decreases s.len(),
{
    if s.len() > 0 {
        lemma_sum_amounts_nonnegative(s.drop_last());
    }
}

/// One pool: a fixed array of per-slot stakes and the pool's total. A slot
/// holding zero is free.
#[derive(Debug, Clone, Copy)]
pub struct StakePool {
    pub total_staked: u64,
    pub stakes: [u64; ALLOVR_AOVR_STAKE_NUM_STAKES_IN_POOL],
}

impl StakePool {
    /// The slots never hold more than the pool's total; what the total holds
    /// beyond them is rounding dust left by rebalancing.
    pub open spec fn wf(&self) -> bool {
        sum_amounts(self.stakes@) <= self.total_staked
    }

    /// Total minus what the slots hold.
    pub open spec fn dust(&self) -> int {
        self.total_staked - sum_amounts(self.stakes@)
    }

    /// Whether the pool's slots hold no more than its total; for records
    /// read back from storage.
    pub fn is_well_formed(&self) -> (r: bool)
        ensures
            r == self.wf(),
    {
        let mut sum: u128 = 0;
        let mut j: usize = 0;
        while j < ALLOVR_AOVR_STAKE_NUM_STAKES_IN_POOL
            invariant
                0 <= j <= ALLOVR_AOVR_STAKE_NUM_STAKES_IN_POOL,
                sum == sum_amounts(self.stakes@.take(j as int)),
                sum <= j * (u64::MAX as int),
            decreases ALLOVR_AOVR_STAKE_NUM_STAKES_IN_POOL - j,
        {
            proof {
                assert(self.stakes@.take(j + 1).drop_last() =~= self.stakes@.take(j as int));
            }
            sum = sum + self.stakes[j] as u128;
            j = j + 1;
        }
        proof {
            assert(self.stakes@.take(ALLOVR_AOVR_STAKE_NUM_STAKES_IN_POOL as int) =~= self.stakes@);
        }
        sum <= self.total_staked as u128
    }

    /// A pool with every slot free.
    pub fn new() -> (r: StakePool)
        ensures
            r.wf(),
            r.total_staked == 0,
            forall|j: int| 0 <= j < ALLOVR_AOVR_STAKE_NUM_STAKES_IN_POOL ==> r.stakes@[j] == 0,
    {
        let r = StakePool { total_staked: 0, stakes: [0u64; ALLOVR_AOVR_STAKE_NUM_STAKES_IN_POOL] };
        proof {
            lemma_sum_of_zeros(r.stakes@);
        }
        r
    }
}

/// A sequence of zeros sums to zero.
pub proof fn lemma_sum_of_zeros(s: Seq<u64>)
    requires
        forall|i: int| 0 <= i < s.len() ==> #[trigger] s[i] == 0,
    ensures
        sum_amounts(s) == 0,
    decreases s.len(),
{
    if s.len() > 0 {
        lemma_sum_of_zeros(s.drop_last());
    }
}

// ---------------------------------------------------------------------------
// Stake record
// ---------------------------------------------------------------------------

/// One participant's stake record. A zero `initialised_date` marks a record
/// that has never been bound to a slot.
#[derive(Debug, Clone, Copy)]
pub struct StakeMetadata {
    /// Seconds since the Unix epoch.
    pub initialised_date: i64,
    pub pool_index: u8,
    pub slot_index: u8,
    pub withdrawal_request: u64,
    /// Seconds since the Unix epoch.
    pub withdrawal_request_date: Option<i64>,
}

impl StakeMetadata {
    /// A record that is not bound yet.
    pub fn new() -> (r: StakeMetadata)
        ensures
            r.initialised_date == 0,
            r.pool_index == 0,
            r.slot_index == 0,
            r.withdrawal_request == 0,
            r.withdrawal_request_date is None,
    {
        StakeMetadata {
            initialised_date: 0,
            pool_index: 0,
            slot_index: 0,
            withdrawal_request: 0,
            withdrawal_request_date: None,
        }
    }

    /// Binds the record to a pool and slot, stamped with `timestamp`.
    pub fn init(&mut self, pool_index: u8, slot_index: u8, timestamp: i64) -> (r: Result<
        (),
        AllovrError,
    >)
        ensures
            old(self).initialised_date != 0 ==> r == Err::<(), AllovrError>(
                AllovrError::StakeAlreadyInitialised,
            ) && *final(self) == *old(self),
            old(self).initialised_date == 0 ==> r is Ok && *final(self) == (StakeMetadata {
                initialised_date: timestamp,
                pool_index,
                slot_index,
                withdrawal_request: 0,
                withdrawal_request_date: None,
            }),
    {
        if self.initialised_date != 0 {
            return Err(AllovrError::StakeAlreadyInitialised);
        }
        self.pool_index = pool_index;
        self.slot_index = slot_index;
        self.withdrawal_request = 0;
        self.initialised_date = timestamp;
        self.withdrawal_request_date = None;
        Ok(())
    }

    /// Records a withdrawal request, replacing any earlier one.
    pub fn request_withdrawal(&mut self, amount: u64, timestamp: i64) -> (r: Result<
        (),
        AllovrError,
    >)
        ensures
            old(self).initialised_date == 0 ==> r == Err::<(), AllovrError>(
                AllovrError::NoStakeExists,
            ) && *final(self) == *old(self),
            old(self).initialised_date != 0 ==> r is Ok && *final(self) == (StakeMetadata {
                withdrawal_request: amount,
                withdrawal_request_date: Some(timestamp),
                ..*old(self)
            }),
    {
        if self.initialised_date == 0 {
            return Err(AllovrError::NoStakeExists);
        }
        self.withdrawal_request = amount;
        self.withdrawal_request_date = Some(timestamp);
        Ok(())
    }

    /// Clears any withdrawal request; succeeds whether or not one existed.
    pub fn cancel_withdrawal(&mut self) -> (r: Result<(), AllovrError>)
        ensures
            r is Ok,
            *final(self) == (StakeMetadata {
                withdrawal_request: 0,
                withdrawal_request_date: None,
                ..*old(self)
            }),
    {
        self.withdrawal_request = 0;
        self.withdrawal_request_date = None;
        Ok(())
    }
}

// ---------------------------------------------------------------------------
// Token state
// ---------------------------------------------------------------------------

/// Issuance state of the token: whether the initial supply was minted, and
/// the emission schedule.
#[derive(Debug, Clone, Copy)]
pub struct AllovrTokenState {
    pub minted: bool,
    /// Seconds since the Unix epoch.
    pub next_inflation_due: i64,
    pub inflation_run_count: u32,
    pub founder_1: Address,
    pub founder_2: Address,
    pub founder_3: Address,
    pub founder_4: Address,
    pub founder_5: Address,
    pub founder_6: Address,
    pub founder_7: Address,
    pub founder_8: Address,
}

/// The founders' addresses, handed in when the token state is set up.
#[derive(Debug, Clone, Copy)]
pub struct InitAovrArgs {
    pub founder_1: Address,
    pub founder_2: Address,
    pub founder_3: Address,
    pub founder_4: Address,
    pub founder_5: Address,
    pub founder_6: Address,
    pub founder_7: Address,
    pub founder_8: Address,
}

} // verus!
