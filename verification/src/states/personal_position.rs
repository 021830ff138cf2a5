//! A liquidity position held by a user.

use crate::states::pool::REWARD_NUM;
use crate::Pubkey;
use vstd::prelude::*;

verus! {

/// Seed of a position account address.
pub const POSITION_SEED: [u8; 8] = [112, 111, 115, 105, 116, 105, 111, 110];

/// Reward bookkeeping of a position for one reward schedule.
#[derive(Copy, Clone, Debug, Default)]
pub struct PositionRewardInfo {
    pub growth_inside_last_x64: u128,
    pub reward_amount_owed: u64,
}

impl PositionRewardInfo {
    /// Stored size of a position's reward entry.
    pub const LEN: usize = 16 + 8;
}

/// A user's liquidity position in a pool.
#[derive(Copy, Clone, Debug)]
pub struct PersonalPositionState {
    pub bump: [u8; 1],
    pub nft_mint: Pubkey,
    pub pool_id: Pubkey,
    pub tick_lower_index: i32,
    pub tick_upper_index: i32,
    pub liquidity: u128,
    pub fee_growth_inside_0_last_x64: u128,
    pub fee_growth_inside_1_last_x64: u128,
    pub token_fees_owed_0: u64,
    pub token_fees_owed_1: u64,
    pub reward_infos: [PositionRewardInfo; REWARD_NUM],
    pub recent_epoch: u64,
    pub padding: [u64; 7],
}

impl PersonalPositionState {
    /// Account tag of a position.
    pub const DISCRIMINATOR: [u8; 8] = [70, 111, 150, 126, 230, 15, 25, 117];

    /// Stored size of a position, with its tag.
    pub const LEN: usize = 8 + 1 + 32 + 32 + 4 + 4 + 16 + 16 + 16 + 8 + 8 + PositionRewardInfo::LEN * REWARD_NUM + 8 + 8 * 7;
}

} // verus!
