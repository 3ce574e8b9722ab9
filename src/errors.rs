use vstd::prelude::*;

verus! {

/// Errors of the staking ledger. Every error aborts the operation that
/// raised it with no change to any record.
#[derive(Debug, Clone, Copy, PartialEq, Eq, Structural)]
pub enum AllovrError {
    InvalidAllovrStateAddress,
    InvalidAllovrMintAddress,
    PoolAlreadyExists,
    PoolIndexMismatch,
    InvalidPoolIndex,
    InvalidPoolAddress,
    SlotIndexOccupied,
    NoStakeExists,
    MinimumStakeAmount,
    MinimumStakeWithdrawalAmountMoreThanZero,
    WithdrawalAmountExceedsStakedAmount,
    InvalidSlotIndex,
    StakeWithdrawalRequestInvalid,
    StakePoolRegistryRebalanceRequired,
    StakePoolRebalanceRequired,
    StakeAlreadyInitialised,
    AovrNotMinted,
    AovrAlreadyMinted,
    AovrInflationNotDue,
    InsufficientAovrBalance,
    /// Reserved for conditions that cannot arise while the records are well formed.
    FatalError,
}

/// The human-readable message of each error.
pub open spec fn error_message(e: AllovrError) -> Seq<char> {
    match e {
        AllovrError::InvalidAllovrStateAddress => "Invalid ALLOVR State Address"@,
        AllovrError::InvalidAllovrMintAddress => "Invalid ALLOVR Mint Address"@,
        AllovrError::PoolAlreadyExists => "Pool already exists"@,
        AllovrError::PoolIndexMismatch => "Pool index does not match head"@,
        AllovrError::InvalidPoolIndex => "Pool index is invalid (allowed: 0 - 99)"@,
        AllovrError::InvalidPoolAddress => "Pool address is invalid"@,
        AllovrError::SlotIndexOccupied => "Slot index is occupied"@,
        AllovrError::NoStakeExists => "No stake"@,
        AllovrError::MinimumStakeAmount => "Minimum stake amount required"@,
        AllovrError::MinimumStakeWithdrawalAmountMoreThanZero => "Minimum stake withdrawal amount must be more than 0"@,
        AllovrError::WithdrawalAmountExceedsStakedAmount => "Withdrawal Amount Exceeds Staked Amount"@,
        AllovrError::InvalidSlotIndex => "Slot index in invalid"@,
        AllovrError::StakeWithdrawalRequestInvalid => "Stake Withdrawal Request Invalid"@,
        AllovrError::StakePoolRegistryRebalanceRequired => "Stake pool registry rebalance is required"@,
        AllovrError::StakePoolRebalanceRequired => "Stake pool rebalance is required"@,
        AllovrError::StakeAlreadyInitialised => "Stake already initialised"@,
        AllovrError::AovrNotMinted => "AOVR not minted"@,
        AllovrError::AovrAlreadyMinted => "AOVR already minted"@,
        AllovrError::AovrInflationNotDue => "AOVR inflation not due"@,
        AllovrError::InsufficientAovrBalance => "Insufficient AOVR balance"@,
        AllovrError::FatalError => "Fatal Error"@,
    }
}

impl AllovrError {
    /// The message reported with this error.
    pub fn message(&self) -> (r: String)
        ensures
            r@ == error_message(*self),
    {
        let m: &str = match self {
            AllovrError::InvalidAllovrStateAddress => "Invalid ALLOVR State Address",
            AllovrError::InvalidAllovrMintAddress => "Invalid ALLOVR Mint Address",
            AllovrError::PoolAlreadyExists => "Pool already exists",
            AllovrError::PoolIndexMismatch => "Pool index does not match head",
            AllovrError::InvalidPoolIndex => "Pool index is invalid (allowed: 0 - 99)",
            AllovrError::InvalidPoolAddress => "Pool address is invalid",
            AllovrError::SlotIndexOccupied => "Slot index is occupied",
            AllovrError::NoStakeExists => "No stake",
            AllovrError::MinimumStakeAmount => "Minimum stake amount required",
            AllovrError::MinimumStakeWithdrawalAmountMoreThanZero => "Minimum stake withdrawal amount must be more than 0",
            AllovrError::WithdrawalAmountExceedsStakedAmount => "Withdrawal Amount Exceeds Staked Amount",
            AllovrError::InvalidSlotIndex => "Slot index in invalid",
            AllovrError::StakeWithdrawalRequestInvalid => "Stake Withdrawal Request Invalid",
            AllovrError::StakePoolRegistryRebalanceRequired => "Stake pool registry rebalance is required",
            AllovrError::StakePoolRebalanceRequired => "Stake pool rebalance is required",
            AllovrError::StakeAlreadyInitialised => "Stake already initialised",
            AllovrError::AovrNotMinted => "AOVR not minted",
            AllovrError::AovrAlreadyMinted => "AOVR already minted",
            AllovrError::AovrInflationNotDue => "AOVR inflation not due",
            AllovrError::InsufficientAovrBalance => "Insufficient AOVR balance",
            AllovrError::FatalError => "Fatal Error",
        };
        m.to_owned()
    }
}

} // verus!
