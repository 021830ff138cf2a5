//! Global AMM configuration.

use crate::Pubkey;
use vstd::prelude::*;

verus! {

/// Seed of the configuration account address.
pub const AMM_CONFIG_SEED: [u8; 10] = [97, 109, 109, 95, 99, 111, 110, 102, 105, 103];

/// Denominator of every fee rate: rates are in millionths.
pub const FEE_RATE_DENOMINATOR_VALUE: u32 = 1_000_000;

/// The largest tick spacing a configuration may set.
pub const MAX_TICK_SPACING: u16 = 1000;

/// The global fee and spacing settings a pool is created under.
#[derive(Copy, Clone, Debug)]
pub struct AmmConfig {
    pub bump: u8,
    pub index: u16,
    pub owner: Pubkey,
    pub protocol_fee_rate: u32,
    pub trade_fee_rate: u32,
    pub tick_spacing: u16,
    pub fund_fee_rate: u32,
    pub padding_u32: u32,
    pub fund_owner: Pubkey,
    pub padding: [u64; 3],
}

impl AmmConfig {
    /// Account tag of a configuration.
    pub const DISCRIMINATOR: [u8; 8] = [218, 244, 33, 104, 203, 203, 43, 111];

    /// Stored size of a configuration, with its tag.
    pub const LEN: usize = 8 + 1 + 2 + 32 + 4 + 4 + 2 + 4 + 4 + 32 + 8 * 3;
}

} // verus!
