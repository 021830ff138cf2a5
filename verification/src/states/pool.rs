//! Pool state and its reward schedules.

use crate::states::pool_fee::DynamicFeeInfo;
use crate::Pubkey;
use vstd::prelude::*;

verus! {

/// Seed of a pool account address.
pub const POOL_SEED: [u8; 4] = [112, 111, 111, 108];

/// Seed of a pool vault address.
pub const POOL_VAULT_SEED: [u8; 10] = [112, 111, 111, 108, 95, 118, 97, 117, 108, 116];

/// Seed of a reward vault address.
pub const POOL_REWARD_VAULT_SEED: [u8; 17] = [112, 111, 111, 108, 95, 114, 101, 119, 97, 114, 100, 95, 118, 97, 117, 108, 116];

/// Seed of a bitmap-extension address.
pub const POOL_TICK_ARRAY_BITMAP_SEED: [u8; 32] = [112, 111, 111, 108, 95, 116, 105, 99, 107, 95, 97, 114, 114, 97, 121, 95, 98, 105, 116, 109, 97, 112, 95, 101, 120, 116, 101, 110, 115, 105, 111, 110];

/// Number of reward schedules a pool has.
pub const REWARD_NUM: usize = 3;

/// Operations a pool's status bits can disable, by bit position.
pub enum PoolStatusBitIndex {
    OpenPositionOrIncreaseLiquidity,
    DecreaseLiquidity,
    CollectFee,
    CollectReward,
    Swap,
    LimitOrder,
}

/// Life cycle of a reward schedule.
#[derive(Copy, Clone, Debug, PartialEq, Eq, Structural)]
pub enum RewardState {
    Uninitialized,
    Initialized,
    Opening,
    Ended,
}

/// One reward schedule of a pool.
#[derive(Copy, Clone, Debug)]
pub struct RewardInfo {
    pub reward_state: u8,
    pub open_time: u64,
    pub end_time: u64,
    pub last_update_time: u64,
    pub emissions_per_second_x64: u128,
    pub reward_total_emitted: u64,
    pub reward_claimed: u64,
    pub token_mint: Pubkey,
    pub token_vault: Pubkey,
    pub authority: Pubkey,
    pub reward_growth_global_x64: u128,
}

/// A schedule is in use once it names a reward mint.
pub open spec fn spec_reward_initialized(r: RewardInfo) -> bool {
    r.token_mint@ != Seq::new(32, |i: int| 0u8)
}

/// Whether an address is all zero bytes.
pub fn pubkey_is_zero(key: &Pubkey) -> (r: bool)
    ensures
        r == (key@ == Seq::new(32, |i: int| 0u8)),
{
    let mut i: usize = 0;
    while i < 32
        invariant
            0 <= i <= 32,
            forall|j: int| 0 <= j < i ==> key[j] == 0u8,
        decreases 32 - i,
    {
        if key[i] != 0 {
            assert(key@[i as int] != Seq::new(32, |i: int| 0u8)[i as int]);
            return false;
        }
        i = i + 1;
    }
    assert(key@ =~= Seq::new(32, |i: int| 0u8));
    true
}

impl RewardInfo {
    /// Stored size of a reward schedule.
    pub const LEN: usize = 1 + 8 + 8 + 8 + 16 + 8 + 8 + 32 + 32 + 32 + 16;

    /// Whether this schedule names a reward mint.
    pub fn initialized(&self) -> (r: bool)
        ensures
            r == spec_reward_initialized(*self),
    {
        !pubkey_is_zero(&self.token_mint)
    }

    /// The global reward growth of each schedule.
    pub fn get_reward_growths(infos: &[RewardInfo; REWARD_NUM]) -> (r: [u128; REWARD_NUM])
        ensures
            forall|i: int| 0 <= i < 3 ==> r[i] == infos[i].reward_growth_global_x64,
    {
        let mut out = [0u128; REWARD_NUM];
        let mut i: usize = 0;
        while i < REWARD_NUM
            invariant
                0 <= i <= 3,
                forall|j: int| 0 <= j < i ==> out[j] == infos[j].reward_growth_global_x64,
            decreases 3 - i,
        {
            out[i] = infos[i].reward_growth_global_x64;
            i = i + 1;
        }
        out
    }
}

/// A pool: its tokens, price, liquidity, fee and reward accounting.
#[derive(Copy, Clone, Debug)]
pub struct PoolState {
    pub bump: [u8; 1],
    pub amm_config: Pubkey,
    pub owner: Pubkey,
    pub token_mint_0: Pubkey,
    pub token_mint_1: Pubkey,
    pub token_vault_0: Pubkey,
    pub token_vault_1: Pubkey,
    pub observation_key: Pubkey,
    pub mint_decimals_0: u8,
    pub mint_decimals_1: u8,
    pub tick_spacing: u16,
    pub liquidity: u128,
    pub sqrt_price_x64: u128,
    pub tick_current: i32,
    pub padding3: u16,
    pub padding4: u16,
    pub fee_growth_global_0_x64: u128,
    pub fee_growth_global_1_x64: u128,
    pub protocol_fees_token_0: u64,
    pub protocol_fees_token_1: u64,
    pub padding5: [u128; 4],
    pub status: u8,
    pub fee_on: u8,
    pub padding: [u8; 6],
    pub reward_infos: [RewardInfo; REWARD_NUM],
    pub tick_array_bitmap: [u64; 16],
    pub padding6: [u64; 4],
    pub fund_fees_token_0: u64,
    pub fund_fees_token_1: u64,
    pub open_time: u64,
    pub recent_epoch: u64,
    pub dynamic_fee_info: DynamicFeeInfo,
    pub padding1: [u64; 14],
    pub padding2: [u64; 32],
}

impl PoolState {
    /// Account tag of a pool.
    pub const DISCRIMINATOR: [u8; 8] = [247, 237, 227, 245, 215, 195, 222, 70];

    /// Stored size of a pool, with its 8-byte tag.
    pub const LEN: usize = 8 + 1 + 32 * 7 + 1 + 1 + 2 + 16 + 16 + 4 + 2 + 2 + 16 + 16 + 8 + 8 + 16 + 16
        + 16 + 16 + 8 + RewardInfo::LEN * REWARD_NUM + 8 * 16 + 8 * 8 + DynamicFeeInfo::LEN + 8 * 14 + 8 * 32;
}

} // verus!
