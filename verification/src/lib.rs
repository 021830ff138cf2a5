//! Concentrated-liquidity AMM core: swap math, fee arithmetic, tick and
//! account-state bookkeeping, and instruction decoding, all verified.

pub mod discriminator;
pub mod error;
pub mod instructions;
pub mod libraries;
pub mod states;
pub mod util;

use vstd::prelude::*;

verus! {

/// A 32-byte account address.
pub type Pubkey = [u8; 32];

} // verus!
