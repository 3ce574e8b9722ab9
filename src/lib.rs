//! A proportional staking ledger: capacity-bounded pools registered in a
//! fixed-size registry, per-slot stakes, emission credited as an owed amount,
//! and lazy rebalancing that folds what is owed into the slots.
//!
//! Policies this ledger settles:
//! - A stake into a pool that is owed something rebalances the pool first
//!   when the caller allows it, and is refused otherwise; a stake never takes
//!   a share of rewards it was not present for.
//! - An emission run splits a third of the weekly amount across the pools in
//!   proportion to their stake, rounding each share down; the rest, rounding
//!   included, goes to the direct recipient, so nothing minted is unowned.
//! - Rebalancing divides each slot by the pool's total before multiplying by
//!   what is owed; what that truncation leaves stays in the pool's total as
//!   dust, outside every slot.
//! - The minimum stake is inclusive.
//!
//! Every operation either fails with no change to any record or commits all
//! of its effects.
use vstd::prelude::*;

pub mod constants;
pub mod errors;
pub mod state;
pub mod utils;
pub mod processors;
pub mod inflation;
pub mod artist;
pub mod laws;

verus! {

} // verus!
