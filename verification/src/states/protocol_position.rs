//! The pool-wide aggregate of positions over one tick range.

use crate::states::pool::REWARD_NUM;
use crate::Pubkey;
use vstd::prelude::*;

verus! {

/// Aggregate liquidity and fee bookkeeping of a tick range.
#[derive(Copy, Clone, Debug)]
pub struct ProtocolPositionState {
    pub bump: u8,
    pub pool_id: Pubkey,
    pub tick_lower_index: i32,
    pub tick_upper_index: i32,
    pub liquidity: u128,
    pub fee_growth_inside_0_last_x64: u128,
    pub fee_growth_inside_1_last_x64: u128,
    pub token_fees_owed_0: u64,
    pub token_fees_owed_1: u64,
    pub reward_growth_inside: [u128; REWARD_NUM],
    pub recent_epoch: u64,
    pub padding: [u64; 7],
}

impl ProtocolPositionState {
    /// Account tag of a tick-range aggregate.
    pub const DISCRIMINATOR: [u8; 8] = [100, 226, 145, 99, 146, 218, 160, 106];

    /// Stored size of a tick-range aggregate, with its tag.
    pub const LEN: usize = 8 + 1 + 32 + 4 + 4 + 16 + 16 + 16 + 8 + 8 + 16 * REWARD_NUM + 8 + 8 * 7;
}

} // verus!
