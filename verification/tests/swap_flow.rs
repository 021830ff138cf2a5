use p_clmm::error::{ErrorCode, ProgramError};
use p_clmm::instructions::exact_internal::{exact_internal, read_vault_amount, read_vault_mint};
use p_clmm::instructions::swap::TickArrayPath;
use p_clmm::instructions::swap_internal::{swap_inputs_ok, swap_internal};
use p_clmm::libraries::tick_math::{get_sqrt_price_at_tick, MAX_SQRT_PRICE_X64};
use p_clmm::states::config::AmmConfig;
use p_clmm::states::oracle::{Observation, ObservationState};
use p_clmm::states::pool::{PoolState, RewardInfo};
use p_clmm::states::pool_fee::DynamicFeeInfo;
use p_clmm::states::tick_array::{TickArrayState, TickState};
use p_clmm::util::account_load::AccountInput;
use p_clmm::util::token::{SPL_TOKEN_ID, TOKEN_2022_ID};

const Q64: u128 = 1 << 64;
const MINT_0: [u8; 32] = [1; 32];
const MINT_1: [u8; 32] = [2; 32];
const VAULT_0: [u8; 32] = [3; 32];
const VAULT_1: [u8; 32] = [4; 32];
const POOL_KEY: [u8; 32] = [9; 32];

fn reward() -> RewardInfo {
    RewardInfo {
        reward_state: 0,
        open_time: 0,
        end_time: 0,
        last_update_time: 0,
        emissions_per_second_x64: 0,
        reward_total_emitted: 0,
        reward_claimed: 0,
        token_mint: [0; 32],
        token_vault: [0; 32],
        authority: [0; 32],
        reward_growth_global_x64: 0,
    }
}

fn pool(liquidity: u128) -> PoolState {
    PoolState {
        bump: [255],
        amm_config: [7; 32],
        owner: [0; 32],
        token_mint_0: MINT_0,
        token_mint_1: MINT_1,
        token_vault_0: VAULT_0,
        token_vault_1: VAULT_1,
        observation_key: [8; 32],
        mint_decimals_0: 6,
        mint_decimals_1: 6,
        tick_spacing: 10,
        liquidity,
        sqrt_price_x64: Q64,
        tick_current: 0,
        padding3: 0,
        padding4: 0,
        fee_growth_global_0_x64: 0,
        fee_growth_global_1_x64: 0,
        protocol_fees_token_0: 0,
        protocol_fees_token_1: 0,
        padding5: [0; 4],
        status: 0,
        fee_on: 0,
        padding: [0; 6],
        reward_infos: [reward(); 3],
        tick_array_bitmap: [0; 16],
        padding6: [0; 4],
        fund_fees_token_0: 0,
        fund_fees_token_1: 0,
        open_time: 0,
        recent_epoch: 0,
        dynamic_fee_info: DynamicFeeInfo {
            filter_period: 0,
            decay_period: 0,
            reduction_factor: 0,
            dynamic_fee_control: 0,
            max_volatility_accumulator: 0,
            tick_spacing_index_reference: 0,
            volatility_reference: 0,
            volatility_accumulator: 0,
            last_update_timestamp: 0,
            padding: [0; 46],
        },
        padding1: [0; 14],
        padding2: [0; 32],
    }
}

fn config() -> AmmConfig {
    AmmConfig {
        bump: 0,
        index: 0,
        owner: [0; 32],
        protocol_fee_rate: 120_000,
        trade_fee_rate: 3_000,
        tick_spacing: 10,
        fund_fee_rate: 40_000,
        padding_u32: 0,
        fund_owner: [0; 32],
        padding: [0; 3],
    }
}

fn empty_tick(tick: i32) -> TickState {
    TickState {
        tick,
        liquidity_net: 0,
        liquidity_gross: 0,
        fee_growth_outside_0_x64: 0,
        fee_growth_outside_1_x64: 0,
        reward_growths_outside_x64: [0; 3],
        order_phase: 0,
        orders_amount: 0,
        part_filled_orders_remaining: 0,
        unfilled_ratio_x64: 0,
        padding: [0; 3],
    }
}

fn array(start: i32) -> TickArrayState {
    let mut ticks = [empty_tick(0); 60];
    for (i, t) in ticks.iter_mut().enumerate() {
        t.tick = start + 10 * i as i32;
    }
    TickArrayState {
        pool_id: POOL_KEY,
        start_tick_index: start,
        ticks,
        initialized_tick_count: 0,
        recent_epoch: 0,
        padding: [0; 107],
    }
}

fn observations() -> ObservationState {
    ObservationState {
        initialized: 0,
        recent_epoch: 0,
        observation_index: 0,
        pool_id: POOL_KEY,
        observations: [Observation::default(); 100],
        padding: [0; 4],
    }
}

/// An array at [0, 600) with ticks 100 (net -L/2) and 200 initialized.
fn crossing_path() -> TickArrayPath {
    let mut a = array(0);
    a.ticks[10].liquidity_gross = 500_000_000_000;
    a.ticks[10].liquidity_net = -500_000_000_000;
    a.ticks[20].liquidity_gross = 1;
    a.ticks[20].liquidity_net = 1;
    let mut path = TickArrayPath::new();
    path.push(a).unwrap();
    path
}

fn custom(code: ErrorCode) -> ProgramError {
    ProgramError::Custom(code.code())
}

#[test]
fn swap_within_one_range_exact_input() {
    let mut p = pool(1_000_000_000_000);
    let mut path = crossing_path();
    let cfg = config();
    let mut obs = observations();
    assert!(swap_inputs_ok(&p, &path, &cfg, &obs, 1_000));
    let res = swap_internal(&mut p, &mut path, &cfg, &mut obs, 1_000_000, MAX_SQRT_PRICE_X64 - 1, false, true, 1_000).unwrap();
    assert_eq!(res.amount_0, 996_999);
    assert_eq!(res.amount_1, 1_000_000);
    assert_eq!(p.sqrt_price_x64, 18_446_762_465_113_393_104);
    assert_eq!(p.tick_current, 0);
    assert_eq!(p.liquidity, 1_000_000_000_000);
    assert_eq!(p.fee_growth_global_1_x64, 46_485_795_065);
    assert_eq!(p.fee_growth_global_0_x64, 0);
    assert_eq!(p.protocol_fees_token_1, 360);
    assert_eq!(p.fund_fees_token_1, 120);
    assert_eq!(obs.initialized, 1);
    assert_eq!(obs.observations[0].block_timestamp, 1_000);
}

#[test]
fn swap_crossing_a_tick_stops_at_limit() {
    let mut p = pool(1_000_000_000_000);
    let mut path = crossing_path();
    let cfg = config();
    let mut obs = observations();
    let limit = get_sqrt_price_at_tick(150).unwrap();
    let res = swap_internal(&mut p, &mut path, &cfg, &mut obs, 10_000_000_000, limit, false, true, 1_000).unwrap();
    assert_eq!(res.amount_1, 6_288_910_369);
    assert_eq!(res.amount_0, 6_229_422_538);
    assert_eq!(p.sqrt_price_x64, limit);
    assert_eq!(p.sqrt_price_x64, 18_585_607_799_272_065_298);
    assert_eq!(p.tick_current, 150);
    assert_eq!(p.liquidity, 500_000_000_000);
    assert_eq!(p.protocol_fees_token_1, 2_264_007);
    assert_eq!(p.fund_fees_token_1, 754_669);
    assert_eq!(p.fee_growth_global_1_x64, 350_989_630_584_869);
    let entries = path.into_entries();
    // The crossed tick records the growth seen on the other side of it.
    assert_eq!(entries[0].ticks[10].fee_growth_outside_1_x64, 233_700_472_504_253);
}

#[test]
fn swap_rejects_zero_amount() {
    let mut p = pool(1_000_000_000_000);
    let mut path = crossing_path();
    let r = swap_internal(&mut p, &mut path, &config(), &mut observations(), 0, MAX_SQRT_PRICE_X64 - 1, false, true, 1);
    assert_eq!(r, Err(custom(ErrorCode::InvaildSwapAmountSpecified)));
}

#[test]
fn swap_rejects_limit_on_wrong_side() {
    let mut p = pool(1_000_000_000_000);
    let mut path = crossing_path();
    // Selling token 1 raises the price, so a limit below it is refused.
    let r = swap_internal(&mut p, &mut path, &config(), &mut observations(), 10, Q64 - 1, false, true, 1);
    assert_eq!(r, Err(custom(ErrorCode::SqrtPriceLimitOverflow)));
    let r = swap_internal(&mut p, &mut path, &config(), &mut observations(), 10, MAX_SQRT_PRICE_X64, false, true, 1);
    assert_eq!(r, Err(custom(ErrorCode::SqrtPriceLimitOverflow)));
}

#[test]
fn swap_needs_array_holding_current_tick() {
    let mut p = pool(1_000_000_000_000);
    let mut path = TickArrayPath::new();
    path.push(array(600)).unwrap();
    let r = swap_internal(&mut p, &mut path, &config(), &mut observations(), 10, MAX_SQRT_PRICE_X64 - 1, false, true, 1);
    assert_eq!(r, Err(custom(ErrorCode::NotEnoughTickArrayAccount)));
}

#[test]
fn swap_without_initialized_ticks_lacks_liquidity() {
    let mut p = pool(1_000_000_000_000);
    let mut path = TickArrayPath::new();
    path.push(array(0)).unwrap();
    let r = swap_internal(&mut p, &mut path, &config(), &mut observations(), 10, MAX_SQRT_PRICE_X64 - 1, false, true, 1);
    assert_eq!(r, Err(custom(ErrorCode::LiquidityInsufficient)));
}

#[test]
fn swap_inputs_ok_rejects_zero_spacing_and_bad_fee() {
    let path = crossing_path();
    let mut p = pool(1);
    p.tick_spacing = 0;
    assert!(!swap_inputs_ok(&p, &path, &config(), &observations(), 1));
    let mut cfg = config();
    cfg.trade_fee_rate = 1_000_001;
    assert!(!swap_inputs_ok(&pool(1), &path, &cfg, &observations(), 1));
    let mut obs = observations();
    obs.observation_index = 100;
    assert!(!swap_inputs_ok(&pool(1), &path, &config(), &obs, 1));
}

fn vault_data(mint: [u8; 32], amount: u64) -> Vec<u8> {
    let mut d = vec![0u8; 165];
    d[..32].copy_from_slice(&mint);
    d[64..72].copy_from_slice(&amount.to_le_bytes());
    d
}

#[test]
fn vault_readers_take_mint_and_amount() {
    let d = vault_data(MINT_1, 77);
    assert_eq!(read_vault_mint(&d), MINT_1);
    assert_eq!(read_vault_amount(&d), 77);
    assert_eq!(read_vault_mint(&d[..31]), [0u8; 32]);
    assert_eq!(read_vault_amount(&d[..71]), 0);
}

#[test]
fn exact_input_settles_and_checks_threshold() {
    let in_data = vault_data(MINT_1, 0);
    let out_data = vault_data(MINT_0, 0);
    let input = AccountInput { key: VAULT_1, owner: SPL_TOKEN_ID, is_signer: false, is_writable: true, data: &in_data };
    let output = AccountInput { key: VAULT_0, owner: SPL_TOKEN_ID, is_signer: false, is_writable: true, data: &out_data };

    let mut p = pool(1_000_000_000_000);
    let mut path = crossing_path();
    let s = exact_internal(&mut p, &mut path, &config(), &mut observations(), &input, &output, 1_000_000, 996_999, 0, true, 1_000).unwrap();
    assert_eq!(s.amount_in, 1_000_000);
    assert_eq!(s.amount_out, 996_999);
    assert_eq!(s.result, Ok(996_999));

    let mut p = pool(1_000_000_000_000);
    let mut path = crossing_path();
    let s = exact_internal(&mut p, &mut path, &config(), &mut observations(), &input, &output, 1_000_000, 997_000, 0, true, 1_000).unwrap();
    assert_eq!(s.result, Err(custom(ErrorCode::TooLittleOutputReceived)));
}

#[test]
fn exact_output_checks_input_bound() {
    let in_data = vault_data(MINT_1, 0);
    let out_data = vault_data(MINT_0, 0);
    let input = AccountInput { key: VAULT_1, owner: SPL_TOKEN_ID, is_signer: false, is_writable: true, data: &in_data };
    let output = AccountInput { key: VAULT_0, owner: SPL_TOKEN_ID, is_signer: false, is_writable: true, data: &out_data };
    let mut p = pool(1_000_000_000_000);
    let mut path = crossing_path();
    let s = exact_internal(&mut p, &mut path, &config(), &mut observations(), &input, &output, 1_000_000, 1, 0, false, 1_000).unwrap();
    assert_eq!(s.amount_out, 1_000_000);
    assert!(s.amount_in > 1_000_000);
    assert_eq!(s.result, Err(custom(ErrorCode::TooMuchInputPaid)));
}

#[test]
fn exact_internal_checks_vaults() {
    let in_data = vault_data(MINT_1, 0);
    let out_data = vault_data(MINT_0, 0);
    // Wrong input vault for the direction.
    let input = AccountInput { key: VAULT_0, owner: SPL_TOKEN_ID, is_signer: false, is_writable: true, data: &in_data };
    let output = AccountInput { key: VAULT_0, owner: SPL_TOKEN_ID, is_signer: false, is_writable: true, data: &out_data };
    let mut p = pool(1_000_000_000_000);
    let mut path = crossing_path();
    let r = exact_internal(&mut p, &mut path, &config(), &mut observations(), &input, &output, 10, 0, 0, true, 1);
    assert_eq!(r.err(), Some(custom(ErrorCode::InvalidInputPoolVault)));

    // Not a token program.
    let input = AccountInput { key: VAULT_1, owner: [5; 32], is_signer: false, is_writable: true, data: &in_data };
    let output = AccountInput { key: VAULT_0, owner: [5; 32], is_signer: false, is_writable: true, data: &out_data };
    let r = exact_internal(&mut p, &mut path, &config(), &mut observations(), &input, &output, 10, 0, 0, true, 1);
    assert_eq!(r.err(), Some(ProgramError::IncorrectProgramId));

    // Vaults of different token programs.
    let input = AccountInput { key: VAULT_1, owner: SPL_TOKEN_ID, is_signer: false, is_writable: true, data: &in_data };
    let output = AccountInput { key: VAULT_0, owner: TOKEN_2022_ID, is_signer: false, is_writable: true, data: &out_data };
    let r = exact_internal(&mut p, &mut path, &config(), &mut observations(), &input, &output, 10, 0, 0, true, 1);
    assert_eq!(r.err(), Some(custom(ErrorCode::InvalidInputPoolVault)));
}

#[test]
fn exact_internal_rejects_dust_swaps() {
    let in_data = vault_data(MINT_1, 0);
    let out_data = vault_data(MINT_0, 0);
    let input = AccountInput { key: VAULT_1, owner: SPL_TOKEN_ID, is_signer: false, is_writable: true, data: &in_data };
    let output = AccountInput { key: VAULT_0, owner: SPL_TOKEN_ID, is_signer: false, is_writable: true, data: &out_data };
    let mut p = pool(1_000_000_000_000);
    let mut path = crossing_path();
    // One unit in pays no output.
    let r = exact_internal(&mut p, &mut path, &config(), &mut observations(), &input, &output, 1, 0, 0, true, 1);
    assert_eq!(r.err(), Some(custom(ErrorCode::TooSmallInputOrOutputAmount)));
}

/// A pool whose first reward schedule emits one token a second from time 0
/// to 1_000_000.
fn pool_with_reward(liquidity: u128) -> PoolState {
    let mut p = pool(liquidity);
    p.reward_infos[0].token_mint = [5; 32];
    p.reward_infos[0].end_time = 1_000_000;
    p.reward_infos[0].emissions_per_second_x64 = Q64;
    p
}

#[test]
fn swap_zero_amount_changes_nothing() {
    let mut p = pool_with_reward(1_000_000_000_000);
    let mut path = crossing_path();
    let mut obs = observations();
    let r = swap_internal(&mut p, &mut path, &config(), &mut obs, 0, MAX_SQRT_PRICE_X64 - 1, false, true, 1_000);
    assert_eq!(r, Err(custom(ErrorCode::InvaildSwapAmountSpecified)));
    assert_eq!(p.reward_infos[0].last_update_time, 0);
    assert_eq!(p.reward_infos[0].reward_total_emitted, 0);
    assert_eq!(p.reward_infos[0].reward_growth_global_x64, 0);
    assert_eq!(p.sqrt_price_x64, Q64);
    assert_eq!(path.len(), 1);
    assert_eq!(obs.initialized, 0);
}

#[test]
fn swap_limit_on_wrong_side_only_accrues_rewards() {
    let mut p = pool_with_reward(1_000_000_000_000);
    let mut path = crossing_path();
    let mut obs = observations();
    let r = swap_internal(&mut p, &mut path, &config(), &mut obs, 10, Q64 - 1, false, true, 1_000);
    assert_eq!(r, Err(custom(ErrorCode::SqrtPriceLimitOverflow)));
    // 1_000 seconds at one token a second over a liquidity of 10^12.
    assert_eq!(p.reward_infos[0].last_update_time, 1_000);
    assert_eq!(p.reward_infos[0].reward_total_emitted, 1_000);
    assert_eq!(p.reward_infos[0].reward_growth_global_x64, 18_446_744_073);
    assert_eq!(p.reward_infos[1].last_update_time, 0);
    assert_eq!(p.sqrt_price_x64, Q64);
    assert_eq!(p.tick_current, 0);
    assert_eq!(p.liquidity, 1_000_000_000_000);
    assert_eq!(path.len(), 1);
    assert_eq!(obs.initialized, 0);
}

#[test]
fn swap_uses_whole_amount_short_of_limit() {
    // Buying token 0 with 1_000 of token 1 stays well short of the limit:
    // all of the amount is used and the tick still agrees with the price.
    let mut p = pool(1_000_000_000_000);
    let mut path = crossing_path();
    let mut obs = observations();
    let res = swap_internal(&mut p, &mut path, &config(), &mut obs, 1_000, MAX_SQRT_PRICE_X64 - 1, false, true, 1).unwrap();
    assert_eq!(res.amount_1, 1_000);
    assert!(p.sqrt_price_x64 > Q64);
    assert!(p.sqrt_price_x64 < get_sqrt_price_at_tick(1).unwrap());
    assert_eq!(p.tick_current, 0);
}

#[test]
fn exact_internal_vault_error_changes_nothing() {
    let in_data = vault_data(MINT_1, 0);
    let out_data = vault_data(MINT_0, 0);
    let input = AccountInput { key: VAULT_0, owner: SPL_TOKEN_ID, is_signer: false, is_writable: true, data: &in_data };
    let output = AccountInput { key: VAULT_0, owner: SPL_TOKEN_ID, is_signer: false, is_writable: true, data: &out_data };
    let mut p = pool_with_reward(1_000_000_000_000);
    let mut path = crossing_path();
    let mut obs = observations();
    let r = exact_internal(&mut p, &mut path, &config(), &mut obs, &input, &output, 10, 0, 0, true, 1_000);
    assert_eq!(r.err(), Some(custom(ErrorCode::InvalidInputPoolVault)));
    assert_eq!(p.reward_infos[0].last_update_time, 0);
    assert_eq!(p.reward_infos[0].reward_total_emitted, 0);
    assert_eq!(p.sqrt_price_x64, Q64);
    assert_eq!(path.len(), 1);
    assert_eq!(obs.initialized, 0);
}


#[test]
fn swap_with_unaccruable_rewards_fails_unchanged() {
    // An emission so large that its total overflows the emitted amount.
    let mut p = pool_with_reward(1_000_000_000_000);
    p.reward_infos[0].emissions_per_second_x64 = u128::MAX;
    let mut path = crossing_path();
    let mut obs = observations();
    let r = swap_internal(&mut p, &mut path, &config(), &mut obs, 10, MAX_SQRT_PRICE_X64 - 1, false, true, 1_000);
    assert_eq!(r, Err(custom(ErrorCode::CalculateOverflow)));
    assert_eq!(p.reward_infos[0].last_update_time, 0);
    assert_eq!(p.sqrt_price_x64, Q64);
    assert_eq!(obs.initialized, 0);
}

#[test]
fn swap_refuses_unsupported_inputs_after_early_checks() {
    let mut p = pool_with_reward(1_000_000_000_000);
    let mut path = crossing_path();
    let mut obs = observations();
    obs.observation_index = 100;
    // A limit on the wrong side is reported first.
    let r = swap_internal(&mut p, &mut path, &config(), &mut obs, 10, Q64 - 1, false, true, 1_000);
    assert_eq!(r, Err(custom(ErrorCode::SqrtPriceLimitOverflow)));
    // Then the observation index out of range is refused, with only the
    // rewards accrued.
    let mut p = pool_with_reward(1_000_000_000_000);
    let r = swap_internal(&mut p, &mut path, &config(), &mut obs, 10, MAX_SQRT_PRICE_X64 - 1, false, true, 1_000);
    assert_eq!(r, Err(ProgramError::InvalidArgument));
    assert_eq!(p.reward_infos[0].last_update_time, 1_000);
    assert_eq!(p.sqrt_price_x64, Q64);
    assert_eq!(path.len(), 1);
    assert_eq!(obs.initialized, 0);
}

#[test]
fn swap_refuses_array_outside_tick_box() {
    let mut p = pool(1_000_000_000_000);
    let mut path = crossing_path();
    path.push(array(0x2000_0000)).unwrap();
    let r = swap_internal(&mut p, &mut path, &config(), &mut observations(), 10, MAX_SQRT_PRICE_X64 - 1, false, true, 1);
    assert_eq!(r, Err(ProgramError::InvalidArgument));
}
