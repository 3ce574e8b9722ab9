use vstd::prelude::*;

verus! {

/// Number of pools the registry can hold.
pub const ALLOVR_AOVR_STAKE_NUM_POOLS: usize = 100;

/// Number of stake slots in each pool.
pub const ALLOVR_AOVR_STAKE_NUM_STAKES_IN_POOL: usize = 100;

/// Smallest amount accepted by a single stake (inclusive).
pub const ALLOVR_AOVR_STAKE_MINIMUM_STAKE: u64 = 1000;

/// Seconds between two emission runs (one week).
pub const INFLATION_INTERVAL_IN_SECONDS: i64 = 604800;

/// Decimal places of the token.
pub const ALLOVR_AOVR_DECIMAL_PLACES: u8 = 9;

/// Largest artist name, in bytes.
pub const ARTIST_METADATA_NAME_SIZE: usize = 32;

/// Largest artist description, in bytes.
pub const ARTIST_METADATA_DESCRIPTION_SIZE: usize = 1000;

/// Largest artist token symbol, in bytes.
pub const ARTIST_METADATA_SYMBOL_SIZE: usize = 4;

/// Largest artist URI, in bytes.
pub const ARTIST_METADATA_URI_SIZE: usize = 200;

} // verus!
