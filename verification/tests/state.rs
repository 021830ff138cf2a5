use p_clmm::error::{ErrorCode, ProgramError, ERROR_CODE_OFFSET};
use p_clmm::instructions::create_pool::CreatePoolArgs;
use p_clmm::instructions::decrease_liquidity::DecreaseLiquidityArgs;
use p_clmm::instructions::increase_liquidity::IncreaseLiquidityArgs;
use p_clmm::instructions::swap::{TickArrayPath, MAX_TICK_ARRAYS_PER_SWAP};
use p_clmm::libraries::tick_math::{MAX_TICK, MIN_TICK};
use p_clmm::states::pool::{pubkey_is_zero, RewardInfo};
use p_clmm::states::pool_fee::CollectFeeOn;
use p_clmm::states::tick_array::{TickArrayState, TickState};

fn reward(mint: [u8; 32], growth: u128) -> RewardInfo {
    RewardInfo {
        reward_state: 0,
        open_time: 0,
        end_time: 0,
        last_update_time: 0,
        emissions_per_second_x64: 0,
        reward_total_emitted: 0,
        reward_claimed: 0,
        token_mint: mint,
        token_vault: [0; 32],
        authority: [0; 32],
        reward_growth_global_x64: growth,
    }
}

fn tick(gross: u128, orders: u64, remaining: u64) -> TickState {
    TickState {
        tick: 0,
        liquidity_net: 0,
        liquidity_gross: gross,
        fee_growth_outside_0_x64: 0,
        fee_growth_outside_1_x64: 0,
        reward_growths_outside_x64: [0; 3],
        order_phase: 0,
        orders_amount: orders,
        part_filled_orders_remaining: remaining,
        unfilled_ratio_x64: 0,
        padding: [0; 3],
    }
}

fn array(start: i32) -> TickArrayState {
    TickArrayState {
        pool_id: [0; 32],
        start_tick_index: start,
        ticks: [tick(0, 0, 0); 60],
        initialized_tick_count: 0,
        recent_epoch: 0,
        padding: [0; 107],
    }
}

#[test]
fn error_codes_number_from_6000() {
    assert_eq!(ErrorCode::NotApproved.code(), ERROR_CODE_OFFSET);
    assert_eq!(ErrorCode::TooLittleOutputReceived.code(), 6021);
    assert_eq!(ErrorCode::ZeroLiquidity.code(), 6046);
    assert_eq!(ProgramError::from(ErrorCode::CalculateOverflow), ProgramError::Custom(6042));
    assert_eq!(ProgramError::from_code(ErrorCode::InvalidInputPoolVault), ProgramError::Custom(6024));
}

#[test]
fn tick_array_start_indices() {
    assert_eq!(TickArrayState::tick_count(10), 600);
    assert_eq!(TickArrayState::get_array_start_index(0, 10), 0);
    assert_eq!(TickArrayState::get_array_start_index(599, 10), 0);
    assert_eq!(TickArrayState::get_array_start_index(600, 10), 600);
    assert_eq!(TickArrayState::get_array_start_index(-1, 10), -600);
    assert_eq!(TickArrayState::get_array_start_index(-600, 10), -600);
    assert_eq!(TickArrayState::get_array_start_index(-601, 10), -1200);
}

#[test]
fn valid_start_indices() {
    assert!(TickArrayState::check_is_valid_start_index(600, 10));
    assert!(TickArrayState::check_is_valid_start_index(-1200, 10));
    assert!(!TickArrayState::check_is_valid_start_index(601, 10));
    // The array holding MIN_TICK starts below it.
    let min_start = TickArrayState::get_array_start_index(MIN_TICK, 10);
    assert!(min_start < MIN_TICK);
    assert!(TickArrayState::check_is_valid_start_index(min_start, 10));
    assert!(!TickArrayState::check_is_valid_start_index(min_start - 600, 10));
    assert!(!TickArrayState::check_is_valid_start_index(MAX_TICK + 1, 1));
    // Every tick's own start index is valid.
    for t in [MIN_TICK, -5_000, -1, 0, 1, 12_345, MAX_TICK] {
        let s = TickArrayState::get_array_start_index(t, 60);
        assert!(s <= t && t < s + TickArrayState::tick_count(60));
        assert!(TickArrayState::check_is_valid_start_index(s, 60));
    }
}

#[test]
fn tick_bounds_and_initialization() {
    assert!(TickState::check_is_out_of_boundary(MIN_TICK - 1));
    assert!(TickState::check_is_out_of_boundary(MAX_TICK + 1));
    assert!(!TickState::check_is_out_of_boundary(MIN_TICK));
    assert!(!TickState::check_is_out_of_boundary(MAX_TICK));
    assert!(!tick(0, 0, 0).is_initialized());
    assert!(tick(1, 0, 0).is_initialized());
    assert!(tick(0, 1, 0).is_initialized());
    assert!(tick(0, 0, 1).is_initialized());
}

#[test]
fn collect_fee_on_roundtrip() {
    for c in [CollectFeeOn::FromInput, CollectFeeOn::Token0Only, CollectFeeOn::Token1Only] {
        assert_eq!(CollectFeeOn::from_u8(c.to_u8()), c);
    }
    assert_eq!(CollectFeeOn::Token1Only.to_u8(), 2);
    assert_eq!(CollectFeeOn::from_u8(9), CollectFeeOn::FromInput);
}

#[test]
fn reward_schedules() {
    assert!(!reward([0; 32], 0).initialized());
    assert!(reward([0, 0, 1, 0, 0, 0, 0, 0, 0, 0, 0, 0, 0, 0, 0, 0, 0, 0, 0, 0, 0, 0, 0, 0, 0, 0, 0, 0, 0, 0, 0, 0], 0).initialized());
    let infos = [reward([0; 32], 5), reward([1; 32], 6), reward([2; 32], 7)];
    assert_eq!(RewardInfo::get_reward_growths(&infos), [5, 6, 7]);
    assert!(pubkey_is_zero(&[0; 32]));
    assert!(!pubkey_is_zero(&[1; 32]));
}

#[test]
fn tick_array_path_is_a_queue() {
    let mut path = TickArrayPath::new();
    assert!(path.is_empty());
    for i in 0..MAX_TICK_ARRAYS_PER_SWAP {
        path.push(array(600 * i as i32)).unwrap();
    }
    assert_eq!(path.len(), MAX_TICK_ARRAYS_PER_SWAP);
    assert_eq!(path.push(array(0)), Err(ProgramError::InvalidArgument));
    assert_eq!(path.pop_front(), Some(0));
    assert_eq!(path.pop_front(), Some(1));
    assert_eq!(path.len(), MAX_TICK_ARRAYS_PER_SWAP - 2);
    assert_eq!(path.get(1).start_tick_index, 600);
    // Room again after taking from the front.
    path.push(array(-600)).unwrap();
    while path.pop_front().is_some() {}
    assert!(path.is_empty());
    assert_eq!(path.pop_front(), None);
    let mut a = array(1);
    a.initialized_tick_count = 3;
    path.set(0, a);
    let entries = path.into_entries();
    assert_eq!(entries.len(), MAX_TICK_ARRAYS_PER_SWAP + 1);
    assert_eq!(entries[0].initialized_tick_count, 3);
    assert_eq!(entries[MAX_TICK_ARRAYS_PER_SWAP].start_tick_index, -600);
}

#[test]
fn liquidity_and_pool_arguments() {
    let mut d = vec![0u8; 34];
    d[0..16].copy_from_slice(&7u128.to_le_bytes());
    d[16..24].copy_from_slice(&8u64.to_le_bytes());
    d[24..32].copy_from_slice(&9u64.to_le_bytes());
    let a = IncreaseLiquidityArgs::try_from_bytes(&d).unwrap();
    assert_eq!((a.liquidity, a.amount_0_max, a.amount_1_max, a.base_flag), (7, 8, 9, None));
    d[32] = 1;
    d[33] = 1;
    assert_eq!(IncreaseLiquidityArgs::try_from_bytes(&d).unwrap().base_flag, Some(true));
    assert!(IncreaseLiquidityArgs::try_from_bytes(&d[..33]).is_err());
    d[32] = 2;
    assert!(IncreaseLiquidityArgs::try_from_bytes(&d).is_err());
    assert!(IncreaseLiquidityArgs::try_from_bytes(&d[..32]).is_err());

    let b = DecreaseLiquidityArgs::try_from_bytes(&d[..32]).unwrap();
    assert_eq!((b.liquidity, b.amount_0_min, b.amount_1_min), (7, 8, 9));
    assert!(DecreaseLiquidityArgs::try_from_bytes(&d[..31]).is_err());

    let c = CreatePoolArgs::try_from_bytes(&d[..24]).unwrap();
    assert_eq!((c.sqrt_price_x64, c.open_time), (7, 8));
    assert!(CreatePoolArgs::try_from_bytes(&d[..23]).is_err());
}
