//! The swap loop: walks initialized ticks across the given tick arrays,
//! computing each step, collecting fees and crossing ticks, then records
//! the pool's new price and an observation.

use crate::error::{spec_program_error, ErrorCode, ProgramError, Result};
use crate::libraries::big_num::{b128, b256, b64, lemma_limbs2_bounds, lemma_limbs4_bounds, U128, U256};
use crate::libraries::arith::{ceil_div, lemma_ceil_div_bounds};
use crate::libraries::fixed_point_64::Q64;
use crate::libraries::full_math::{spec_mul_div_ceil, spec_mul_div_floor, Downcast256, MulDiv};
use crate::libraries::liquidity_math::{add_delta, spec_add_delta};
use crate::states::oracle::{Observation, ObservationState, OBSERVATION_NUM, OBSERVATION_UPDATE_DURATION_DEFAULT};
use crate::states::pool::{spec_reward_initialized, PoolState, RewardInfo, REWARD_NUM};
use crate::states::tick_array::{spec_tick_count, spec_tick_initialized, TickArrayState, TickState};
use crate::instructions::swap::{TickArrayPath, MAX_TICK_ARRAYS_PER_SWAP};
use crate::libraries::swap_math::{
    compute_swap, lemma_compute_swap_price_between, lemma_compute_swap_within_remaining, spec_compute_swap, SwapComputationResult,
};
use crate::libraries::tick_math::{
    get_sqrt_price_at_tick, get_tick_at_sqrt_price, lemma_extreme_sqrt_prices, spec_get_sqrt_price_at_tick,
    spec_get_tick_at_sqrt_price, spec_sqrt_price_at_tick, MAX_SQRT_PRICE_X64, MAX_TICK, MIN_SQRT_PRICE_X64, MIN_TICK,
};
use crate::libraries::tick_monotone::{lemma_sqrt_price_at_tick_in_range, lemma_sqrt_price_monotone, lemma_tick_at_sqrt_price_bounds};
use crate::states::config::{AmmConfig, FEE_RATE_DENOMINATOR_VALUE};
use crate::states::pool_fee::{spec_collect_fee_on, CollectFeeOn};
use vstd::prelude::*;

verus! {

/// Token amounts of a swap, by token: the input amount on the input side,
/// the output amount on the output side.
#[derive(Debug, Clone, Copy, PartialEq, Eq, Structural)]
pub struct SwapInternalResult {
    pub amount_0: u64,
    pub amount_1: u64,
}

/// Running state of the swap loop.
#[derive(Clone, Copy, PartialEq, Eq, Structural)]
pub struct SwapState {
    pub sqrt_price_x64: u128,
    pub liquidity: u128,
    pub fee_growth_global_input_x64: u128,
    pub protocol_fee_input: u64,
    pub fund_fee_input: u64,
    pub amount_specified_remaining: u64,
    pub amount_calculated: u64,
    pub tick_current: i32,
}

// ---------------------------------------------------------------------------
// Reward accrual

/// Reward emitted over `time_delta` seconds: `ceil(t * e / 2^64)`.
pub open spec fn spec_reward_delta(time_delta: u64, emissions: u128) -> int {
    match spec_mul_div_ceil(time_delta as int, emissions as int, b64(), b128()) {
        Some(v) => v,
        None => 0,
    }
}

/// Growth per unit of liquidity over `time_delta`: `floor(t * e / L)`.
pub open spec fn spec_growth_delta(time_delta: u64, emissions: u128, liquidity: u128) -> int {
    (time_delta as int) * (emissions as int) / (liquidity as int)
}

/// Growth of the emission that still fits under `u64::MAX` total:
/// `floor(remainder * 2^64 / L)`.
pub open spec fn spec_capped_growth(total: u64, liquidity: u128) -> int {
    ((u64::MAX - total) as int) * b64() / (liquidity as int)
}

/// Whether a schedule accrues at `now`: it is in use, open, and time has
/// passed since its last update (up to its end).
pub open spec fn spec_reward_accrues(r: RewardInfo, now: u64) -> bool {
    let latest = if now < r.end_time { now } else { r.end_time };
    spec_reward_initialized(r) && now > r.open_time && latest > r.last_update_time
}

/// The schedule brought up to `now`: for a positive liquidity the emitted
/// total (saturating at `u64::MAX`, where the growth is recomputed from what
/// fit) and the global growth (wrapping) advance; the update time becomes
/// `min(now, end_time)`.
pub open spec fn spec_reward_update(r: RewardInfo, now: u64, liquidity: u128) -> RewardInfo {
    if !spec_reward_accrues(r, now) {
        r
    } else {
        let latest: u64 = if now < r.end_time { now } else { r.end_time };
        let time_delta = (latest - r.last_update_time) as u64;
        if liquidity > 0 {
            let reward_delta = spec_reward_delta(time_delta, r.emissions_per_second_x64);
            let capped = r.reward_total_emitted + reward_delta > u64::MAX;
            let new_total: u64 = if capped { u64::MAX } else { (r.reward_total_emitted + reward_delta) as u64 };
            let growth = if capped {
                spec_capped_growth(r.reward_total_emitted, liquidity)
            } else {
                spec_growth_delta(time_delta, r.emissions_per_second_x64, liquidity)
            };
            RewardInfo {
                reward_total_emitted: new_total,
                reward_growth_global_x64: ((r.reward_growth_global_x64 + growth) % b128()) as u128,
                last_update_time: latest,
                ..r
            }
        } else {
            RewardInfo { last_update_time: latest, ..r }
        }
    }
}

/// The accrual of a schedule stays within the integer widths it is held in.
pub open spec fn spec_reward_update_fits(r: RewardInfo, now: u64, liquidity: u128) -> bool {
    spec_reward_accrues(r, now) && liquidity > 0 ==> {
        let latest: u64 = if now < r.end_time { now } else { r.end_time };
        let time_delta = (latest - r.last_update_time) as u64;
        let reward_delta = spec_reward_delta(time_delta, r.emissions_per_second_x64);
        &&& reward_delta < b64()
        &&& (r.reward_total_emitted + reward_delta > u64::MAX ==> spec_capped_growth(r.reward_total_emitted, liquidity) < b128())
        &&& (r.reward_total_emitted + reward_delta <= u64::MAX ==> spec_growth_delta(time_delta, r.emissions_per_second_x64, liquidity) < b128())
    }
}

/// Every schedule of the pool can accrue to `now` within its widths.
pub open spec fn spec_rewards_fit(p: PoolState, now: u64) -> bool {
    forall|i: int| 0 <= i < 3 ==> spec_reward_update_fits(#[trigger] p.reward_infos[i], now, p.liquidity)
}

/// The pool with every schedule accrued to `now`.
pub open spec fn spec_pool_rewards_updated(old_p: PoolState, new_p: PoolState, now: u64) -> bool {
    &&& new_p == (PoolState { reward_infos: new_p.reward_infos, ..old_p })
    &&& forall|i: int| 0 <= i < 3 ==> #[trigger] new_p.reward_infos[i] == spec_reward_update(old_p.reward_infos[i], now, old_p.liquidity)
}

/// Accrues one schedule.
fn update_reward(info: &RewardInfo, block_timestamp: u64, liquidity: u128) -> (r: RewardInfo)
    requires
        spec_reward_update_fits(*info, block_timestamp, liquidity),
    ensures
        r == spec_reward_update(*info, block_timestamp, liquidity),
{
    if !info.initialized() {
        return *info;
    }
    if block_timestamp <= info.open_time {
        return *info;
    }
    let end_time = info.end_time;
    let last_update_time = info.last_update_time;
    let emissions_per_second_x64 = info.emissions_per_second_x64;
    let total_emitted_so_far = info.reward_total_emitted;
    let growth_so_far = info.reward_growth_global_x64;

    let latest_update_timestamp = if block_timestamp < end_time { block_timestamp } else { end_time };
    let time_delta = latest_update_timestamp.saturating_sub(last_update_time);
    if time_delta == 0 {
        return *info;
    }
    if liquidity > 0 {
        let reward_delta_wide = match U128::from_u64(time_delta).mul_div_ceil(
            U128::from_u128(emissions_per_second_x64),
            U128::from_u128(Q64),
        ) {
            Some(v) => v,
            None => U128::zero(),
        };
        let reward_delta = reward_delta_wide.as_u64();
        let mut growth_delta_x64 = match U256::from_u64(time_delta).mul_div_floor(
            U256::from_u128(emissions_per_second_x64),
            U256::from_u128(liquidity),
        ) {
            Some(v) => v,
            None => U256::zero(),
        };
        proof {
            vstd::arithmetic::div_mod::lemma_div_pos_is_pos(time_delta as int * emissions_per_second_x64 as int, liquidity as int);
            assert(0 <= time_delta as int * emissions_per_second_x64 as int) by (nonlinear_arith);
        }
        let (new_total, capped) = match total_emitted_so_far.checked_add(reward_delta) {
            Some(v) => (v, false),
            None => (u64::MAX, true),
        };
        if capped {
            let remainder = u64::MAX.saturating_sub(total_emitted_so_far);
            growth_delta_x64 = match U256::from_u64(remainder).mul_div_floor(
                U256::from_u128(Q64),
                U256::from_u128(liquidity),
            ) {
                Some(v) => v,
                None => U256::zero(),
            };
            proof {
                vstd::arithmetic::div_mod::lemma_div_pos_is_pos(remainder as int * b64(), liquidity as int);
                assert(0 <= remainder as int * b64()) by (nonlinear_arith);
            }
        }
        proof {
            vstd::arithmetic::div_mod::lemma_small_mod(growth_delta_x64@ as nat, b128() as nat);
        }
        let new_growth = growth_so_far.wrapping_add(growth_delta_x64.as_u128().as_u128());
        RewardInfo {
            reward_total_emitted: new_total,
            reward_growth_global_x64: new_growth,
            last_update_time: latest_update_timestamp,
            ..*info
        }
    } else {
        RewardInfo { last_update_time: latest_update_timestamp, ..*info }
    }
}

/// Accrues every reward schedule of the pool to `block_timestamp`.
fn update_pool_rewards(pool_state: &mut PoolState, block_timestamp: u64) -> (r: Result<()>)
    requires
        spec_rewards_fit(*old(pool_state), block_timestamp),
    ensures
        r is Ok,
        spec_pool_rewards_updated(*old(pool_state), *final(pool_state), block_timestamp),
{
    let liquidity: u128 = pool_state.liquidity;
    let mut i: usize = 0;
    let ghost start = *pool_state;
    while i < REWARD_NUM
        invariant
            0 <= i <= 3,
            *pool_state == (PoolState { reward_infos: pool_state.reward_infos, ..start }),
            liquidity == start.liquidity,
            spec_rewards_fit(start, block_timestamp),
            forall|j: int| 0 <= j < i ==> #[trigger] pool_state.reward_infos[j] == spec_reward_update(start.reward_infos[j], block_timestamp, liquidity),
            forall|j: int| i <= j < 3 ==> #[trigger] pool_state.reward_infos[j] == start.reward_infos[j],
        decreases 3 - i,
    {
        let updated = update_reward(&pool_state.reward_infos[i], block_timestamp, liquidity);
        pool_state.reward_infos[i] = updated;
        i = i + 1;
    }
    Ok(())
}

/// The end of the span a schedule accrues over at `now`: `min(now, end_time)`.
pub open spec fn spec_accrual_end(r: RewardInfo, now: u64) -> u64 {
    if now < r.end_time { now } else { r.end_time }
}

/// Accrual of a schedule that is in use, open at `now`, behind
/// `min(now, end_time)`, on positive liquidity, and whose emission fits in
/// the total: the update time becomes `min(now, end_time)`, the emitted
/// total grows by `ceil(t * e / 2^64)` and the global growth by
/// `floor(t * e / L)`, wrapping at 2^128, where `t` is the time elapsed
/// since the last update and `e` the emission rate.
pub proof fn lemma_reward_accrual(r: RewardInfo, now: u64, liquidity: u128)
    requires
        spec_reward_initialized(r),
        now > r.open_time,
        spec_accrual_end(r, now) > r.last_update_time,
        liquidity > 0,
        r.reward_total_emitted + ceil_div((spec_accrual_end(r, now) - r.last_update_time) * r.emissions_per_second_x64, b64())
            <= u64::MAX,
    ensures
        ({
            let u = spec_reward_update(r, now, liquidity);
            let te = (spec_accrual_end(r, now) - r.last_update_time) * r.emissions_per_second_x64;
            &&& u.last_update_time == spec_accrual_end(r, now)
            &&& u.reward_total_emitted == r.reward_total_emitted + ceil_div(te, b64())
            &&& u.reward_growth_global_x64 == (r.reward_growth_global_x64 + te / (liquidity as int)) % b128()
        }),
{
    let t = (spec_accrual_end(r, now) - r.last_update_time) as u64;
    let e = r.emissions_per_second_x64;
    assert(t as int * e as int >= 0) by (nonlinear_arith) requires t >= 0, e >= 0;
    lemma_ceil_div_bounds(t as int * e as int, b64());
    assert(spec_reward_delta(t, e) == ceil_div(t as int * e as int, b64()));
}

/// Accruing a schedule changes nothing but its update time, emitted total
/// and global growth, leaves a schedule not in use as it was, and never
/// moves the update time or the emitted total back.
pub proof fn lemma_reward_update_only_advances(r: RewardInfo, now: u64, liquidity: u128)
    ensures
        ({
            let u = spec_reward_update(r, now, liquidity);
            &&& u == (RewardInfo {
                last_update_time: u.last_update_time,
                reward_total_emitted: u.reward_total_emitted,
                reward_growth_global_x64: u.reward_growth_global_x64,
                ..r
            })
            &&& (!spec_reward_initialized(r) ==> u == r)
            &&& u.last_update_time >= r.last_update_time
            &&& u.reward_total_emitted >= r.reward_total_emitted
        }),
{
    if spec_reward_accrues(r, now) && liquidity > 0 {
        let t = (spec_accrual_end(r, now) - r.last_update_time) as u64;
        let e = r.emissions_per_second_x64;
        assert(t as int * e as int >= 0) by (nonlinear_arith) requires t >= 0, e >= 0;
        lemma_ceil_div_bounds(t as int * e as int, b64());
    }
}

/// Accruing the pool's rewards changes nothing but the update time,
/// emitted total and global growth of the schedules in use; the update
/// times and emitted totals never go back.
pub proof fn lemma_pool_rewards_only_advance(old_p: PoolState, new_p: PoolState, now: u64)
    requires
        spec_pool_rewards_updated(old_p, new_p, now),
    ensures
        new_p == (PoolState { reward_infos: new_p.reward_infos, ..old_p }),
        forall|i: int| 0 <= i < 3 ==> {
            &&& #[trigger] new_p.reward_infos[i] == (RewardInfo {
                last_update_time: new_p.reward_infos[i].last_update_time,
                reward_total_emitted: new_p.reward_infos[i].reward_total_emitted,
                reward_growth_global_x64: new_p.reward_infos[i].reward_growth_global_x64,
                ..old_p.reward_infos[i]
            })
            &&& (!spec_reward_initialized(old_p.reward_infos[i]) ==> new_p.reward_infos[i] == old_p.reward_infos[i])
            &&& new_p.reward_infos[i].last_update_time >= old_p.reward_infos[i].last_update_time
            &&& new_p.reward_infos[i].reward_total_emitted >= old_p.reward_infos[i].reward_total_emitted
        },
{
    assert forall|i: int| 0 <= i < 3 implies {
        &&& #[trigger] new_p.reward_infos[i] == (RewardInfo {
            last_update_time: new_p.reward_infos[i].last_update_time,
            reward_total_emitted: new_p.reward_infos[i].reward_total_emitted,
            reward_growth_global_x64: new_p.reward_infos[i].reward_growth_global_x64,
            ..old_p.reward_infos[i]
        })
        &&& (!spec_reward_initialized(old_p.reward_infos[i]) ==> new_p.reward_infos[i] == old_p.reward_infos[i])
        &&& new_p.reward_infos[i].last_update_time >= old_p.reward_infos[i].last_update_time
        &&& new_p.reward_infos[i].reward_total_emitted >= old_p.reward_infos[i].reward_total_emitted
    } by {
        lemma_reward_update_only_advances(old_p.reward_infos[i], now, old_p.liquidity);
    }
}

// ---------------------------------------------------------------------------
// Tick arrays

/// Bound on tick indices that keeps the tick arithmetic of a swap within
/// `i32`.
pub open spec fn tick_box(t: int) -> bool {
    -0x3fff_ffff <= t <= 0x3fff_ffff
}

/// A tick array whose whole span lies within half the tick box.
pub open spec fn spec_array_in_box(a: TickArrayState, tick_spacing: u16) -> bool {
    -0x2000_0000 <= a.start_tick_index && a.start_tick_index + spec_tick_count(tick_spacing) <= 0x2000_0000
}

/// Whether the array's span holds `tick_index`.
pub open spec fn spec_array_contains_tick(a: TickArrayState, tick_index: i32, tick_spacing: u16) -> bool {
    tick_index >= a.start_tick_index && tick_index < a.start_tick_index + spec_tick_count(tick_spacing)
}

fn array_contains_tick(array: &TickArrayState, tick_index: i32, tick_spacing: u16) -> (r: bool)
    requires
        spec_array_in_box(*array, tick_spacing),
    ensures
        r == spec_array_contains_tick(*array, tick_index, tick_spacing),
{
    let start: i32 = array.start_tick_index;
    let span: i32 = TickArrayState::tick_count(tick_spacing);
    tick_index >= start && tick_index < start + span
}

/// Division rounding toward zero, as integer division does.
pub open spec fn trunc_div(a: int, b: int) -> int {
    if a >= 0 { a / b } else { -((-a) / b) }
}

/// The tick index of slot `idx` of an array starting at `start`.
pub open spec fn tick_position(start: i32, idx: int, tick_spacing: u16) -> int {
    start + idx * tick_spacing
}

/// Scanning down from slot `idx`, the first initialized tick below `current`.
pub open spec fn search_down(start: i32, ticks: Seq<TickState>, current: i32, tick_spacing: u16, idx: int) -> Option<i32>
    decreases idx + 1,
{
    if idx < 0 || idx >= 60 {
        None
    } else if spec_tick_initialized(ticks[idx]) && tick_position(start, idx, tick_spacing) < current {
        Some(tick_position(start, idx, tick_spacing) as i32)
    } else {
        search_down(start, ticks, current, tick_spacing, idx - 1)
    }
}

/// Scanning up from slot `idx`, the first initialized tick above `current`.
pub open spec fn search_up(start: i32, ticks: Seq<TickState>, current: i32, tick_spacing: u16, idx: int) -> Option<i32>
    decreases 60 - idx,
{
    if idx < 0 || idx >= 60 {
        None
    } else if spec_tick_initialized(ticks[idx]) && tick_position(start, idx, tick_spacing) > current {
        Some(tick_position(start, idx, tick_spacing) as i32)
    } else {
        search_up(start, ticks, current, tick_spacing, idx + 1)
    }
}

/// The next initialized tick of the array in the swap direction: below the
/// current tick (scanning down from its slot) when selling token 0, above it
/// (scanning up from the next slot) otherwise.
pub open spec fn spec_find_next_initialized_tick(start: i32, ticks: Seq<TickState>, current: i32, tick_spacing: u16, zero_for_one: bool) -> Option<i32> {
    let q = trunc_div(current - start, tick_spacing as int);
    if zero_for_one {
        search_down(start, ticks, current, tick_spacing, if q >= 60 { 59 } else { q })
    } else {
        search_up(start, ticks, current, tick_spacing, if q + 1 < 0 { 0 } else { q + 1 })
    }
}

fn find_next_initialized_tick(
    array: &TickArrayState,
    current_tick: i32,
    tick_spacing: u16,
    zero_for_one: bool,
) -> (r: Option<i32>)
    requires
        tick_spacing > 0,
        spec_array_in_box(*array, tick_spacing),
        tick_box(current_tick as int),
    ensures
        r == spec_find_next_initialized_tick(array.start_tick_index, array.ticks@, current_tick, tick_spacing, zero_for_one),
{
    let start = array.start_tick_index;
    let ts = tick_spacing as i32;
    let diff = current_tick - start;
    let q = diff / ts;
    proof {
        assert(q == trunc_div(current_tick - start, ts as int));
        vstd::arithmetic::div_mod::lemma_div_is_ordered_by_denominator(if diff >= 0 { diff as int } else { -diff }, 1, ts as int);
        vstd::arithmetic::div_mod::lemma_div_pos_is_pos(if diff >= 0 { diff as int } else { -diff }, ts as int);
    }
    if zero_for_one {
        let mut idx: isize = q as isize;
        if idx >= 60 {
            idx = 59;
        }
        while idx >= 0
            invariant
                idx < 60,
                search_down(start, array.ticks@, current_tick, tick_spacing, idx as int)
                    == spec_find_next_initialized_tick(start, array.ticks@, current_tick, tick_spacing, zero_for_one),
                start == array.start_tick_index,
                ts == tick_spacing,
                tick_spacing > 0,
                spec_array_in_box(*array, tick_spacing),
            decreases idx + 1,
        {
            let t = &array.ticks[idx as usize];
            proof {
                assert(0 <= idx * ts <= 59 * ts) by (nonlinear_arith) requires 0 <= idx < 60, ts > 0;
            }
            let tick_index = start + (idx as i32) * ts;
            if t.is_initialized() && tick_index < current_tick {
                return Some(tick_index);
            }
            idx = idx - 1;
        }
        None
    } else {
        let mut idx: isize = q as isize + 1;
        if idx < 0 {
            idx = 0;
        }
        while idx < 60
            invariant
                idx >= 0,
                search_up(start, array.ticks@, current_tick, tick_spacing, idx as int)
                    == spec_find_next_initialized_tick(start, array.ticks@, current_tick, tick_spacing, zero_for_one),
                start == array.start_tick_index,
                ts == tick_spacing,
                tick_spacing > 0,
                spec_array_in_box(*array, tick_spacing),
            decreases 60 - idx,
        {
            let t = &array.ticks[idx as usize];
            proof {
                assert(0 <= idx * ts <= 59 * ts) by (nonlinear_arith) requires 0 <= idx < 60, ts > 0;
            }
            let tick_index = start + (idx as i32) * ts;
            if t.is_initialized() && tick_index > current_tick {
                return Some(tick_index);
            }
            idx = idx + 1;
        }
        None
    }
}

/// Slot `j` holds an initialized tick strictly past `current` in the swap
/// direction: below it when selling token 0, above it otherwise.
pub open spec fn initialized_past(start: i32, ticks: Seq<TickState>, current: i32, tick_spacing: u16, zero_for_one: bool, j: int) -> bool {
    &&& spec_tick_initialized(ticks[j])
    &&& if zero_for_one {
        tick_position(start, j, tick_spacing) < current
    } else {
        tick_position(start, j, tick_spacing) > current
    }
}

/// Scanning down from `idx` finds the highest slot at or below `idx` with an
/// initialized tick below `current`.
proof fn lemma_search_down_nearest(start: i32, ticks: Seq<TickState>, current: i32, tick_spacing: u16, idx: int)
    requires
        idx < 60,
        tick_spacing > 0,
    ensures
        search_down(start, ticks, current, tick_spacing, idx) matches Some(t) ==> exists|i: int| {
            &&& 0 <= i <= idx
            &&& #[trigger] initialized_past(start, ticks, current, tick_spacing, true, i)
            &&& t == tick_position(start, i, tick_spacing)
            &&& forall|j: int| i < j <= idx ==> !#[trigger] initialized_past(start, ticks, current, tick_spacing, true, j)
        },
        search_down(start, ticks, current, tick_spacing, idx) is None
            ==> forall|j: int| 0 <= j <= idx ==> !#[trigger] initialized_past(start, ticks, current, tick_spacing, true, j),
    decreases idx + 1,
{
    if idx >= 0 {
        let pos = tick_position(start, idx, tick_spacing);
        if spec_tick_initialized(ticks[idx]) && pos < current {
            assert(0 <= idx * tick_spacing) by (nonlinear_arith) requires idx >= 0, tick_spacing > 0;
            assert(initialized_past(start, ticks, current, tick_spacing, true, idx));
        } else {
            lemma_search_down_nearest(start, ticks, current, tick_spacing, idx - 1);
            assert(!initialized_past(start, ticks, current, tick_spacing, true, idx));
        }
    }
}

/// Scanning up from `idx` finds the lowest slot at or above `idx` with an
/// initialized tick above `current`.
proof fn lemma_search_up_nearest(start: i32, ticks: Seq<TickState>, current: i32, tick_spacing: u16, idx: int)
    requires
        idx >= 0,
        tick_spacing > 0,
        start + spec_tick_count(tick_spacing) <= i32::MAX,
    ensures
        search_up(start, ticks, current, tick_spacing, idx) matches Some(t) ==> exists|i: int| {
            &&& idx <= i < 60
            &&& #[trigger] initialized_past(start, ticks, current, tick_spacing, false, i)
            &&& t == tick_position(start, i, tick_spacing)
            &&& forall|j: int| idx <= j < i ==> !#[trigger] initialized_past(start, ticks, current, tick_spacing, false, j)
        },
        search_up(start, ticks, current, tick_spacing, idx) is None
            ==> forall|j: int| idx <= j < 60 ==> !#[trigger] initialized_past(start, ticks, current, tick_spacing, false, j),
    decreases 60 - idx,
{
    if idx < 60 {
        let pos = tick_position(start, idx, tick_spacing);
        if spec_tick_initialized(ticks[idx]) && pos > current {
            assert(idx * tick_spacing <= 60 * tick_spacing) by (nonlinear_arith) requires idx < 60, tick_spacing > 0;
            assert(initialized_past(start, ticks, current, tick_spacing, false, idx));
        } else {
            lemma_search_up_nearest(start, ticks, current, tick_spacing, idx + 1);
            assert(!initialized_past(start, ticks, current, tick_spacing, false, idx));
        }
    }
}

/// The tick a swap step heads for within an array is the nearest
/// initialized tick past the current one in the swap direction: for a
/// current tick within the array's span, a found tick is that of an
/// initialized slot, lies strictly below the current tick when selling
/// token 0 (strictly above otherwise), and no initialized tick of the array
/// lies strictly between the two; when none is found, no initialized tick
/// of the array lies past the current one in the swap direction.
pub proof fn lemma_next_initialized_tick_is_nearest(
    start: i32,
    ticks: Seq<TickState>,
    current: i32,
    tick_spacing: u16,
    zero_for_one: bool,
)
    requires
        tick_spacing > 0,
        start <= current < start + spec_tick_count(tick_spacing),
        start + spec_tick_count(tick_spacing) <= i32::MAX,
    ensures
        spec_find_next_initialized_tick(start, ticks, current, tick_spacing, zero_for_one) matches Some(t) ==> {
            &&& exists|i: int| 0 <= i < 60 && t == tick_position(start, i, tick_spacing) && spec_tick_initialized(#[trigger] ticks[i])
            &&& if zero_for_one { t < current } else { t > current }
            &&& forall|j: int| 0 <= j < 60 && spec_tick_initialized(#[trigger] ticks[j]) ==> if zero_for_one {
                !(t < tick_position(start, j, tick_spacing) < current)
            } else {
                !(current < tick_position(start, j, tick_spacing) < t)
            }
        },
        spec_find_next_initialized_tick(start, ticks, current, tick_spacing, zero_for_one) is None
            ==> forall|j: int| 0 <= j < 60 && spec_tick_initialized(#[trigger] ticks[j]) ==> if zero_for_one {
                tick_position(start, j, tick_spacing) >= current
            } else {
                tick_position(start, j, tick_spacing) <= current
            },
{
    let ts = tick_spacing as int;
    let d = current - start;
    let q = d / ts;
    vstd::arithmetic::div_mod::lemma_fundamental_div_mod(d, ts);
    assert(0 <= q < 60) by (nonlinear_arith)
        requires 0 <= d < 60 * ts, d == ts * q + d % ts, 0 <= d % ts < ts, ts > 0;
    assert(trunc_div(d, ts) == q);
    // Slots up to q lie at or below the current tick, the others above it.
    assert forall|j: int| 0 <= j < 60 implies
        (j <= q ==> tick_position(start, j, tick_spacing) <= current)
        && (j > q ==> tick_position(start, j, tick_spacing) > current) by {
        let r = d % ts;
        if j <= q {
            assert(j * ts <= d) by (nonlinear_arith) requires j <= q, ts > 0, d == ts * q + r, r >= 0;
        } else {
            assert(j * ts > d) by (nonlinear_arith) requires j >= q + 1, ts > 0, d == ts * q + r, r < ts;
        }
    }
    // Slot positions are ordered as the slots are.
    assert forall|i: int, j: int| 0 <= i < 60 && 0 <= j < 60 && i < j implies
        tick_position(start, i, tick_spacing) < tick_position(start, j, tick_spacing) by {
        assert(i * ts < j * ts) by (nonlinear_arith) requires i < j, ts > 0;
    }
    if zero_for_one {
        lemma_search_down_nearest(start, ticks, current, tick_spacing, q);
        match spec_find_next_initialized_tick(start, ticks, current, tick_spacing, zero_for_one) {
            Some(t) => {
                let i = choose|i: int| {
                    &&& 0 <= i <= q
                    &&& #[trigger] initialized_past(start, ticks, current, tick_spacing, true, i)
                    &&& t == tick_position(start, i, tick_spacing)
                    &&& forall|j: int| i < j <= q ==> !#[trigger] initialized_past(start, ticks, current, tick_spacing, true, j)
                };
                assert(spec_tick_initialized(ticks[i]));
                assert forall|j: int| 0 <= j < 60 && spec_tick_initialized(#[trigger] ticks[j]) implies
                    !(t < tick_position(start, j, tick_spacing) < current) by {
                    if t < tick_position(start, j, tick_spacing) < current {
                        assert(initialized_past(start, ticks, current, tick_spacing, true, j));
                        assert(j > i);
                    }
                }
            },
            None => {
                assert forall|j: int| 0 <= j < 60 && spec_tick_initialized(#[trigger] ticks[j]) implies
                    tick_position(start, j, tick_spacing) >= current by {
                    if j <= q {
                        assert(!initialized_past(start, ticks, current, tick_spacing, true, j));
                    }
                }
            },
        }
    } else {
        lemma_search_up_nearest(start, ticks, current, tick_spacing, q + 1);
        match spec_find_next_initialized_tick(start, ticks, current, tick_spacing, zero_for_one) {
            Some(t) => {
                let i = choose|i: int| {
                    &&& q + 1 <= i < 60
                    &&& #[trigger] initialized_past(start, ticks, current, tick_spacing, false, i)
                    &&& t == tick_position(start, i, tick_spacing)
                    &&& forall|j: int| q + 1 <= j < i ==> !#[trigger] initialized_past(start, ticks, current, tick_spacing, false, j)
                };
                assert(spec_tick_initialized(ticks[i]));
                assert forall|j: int| 0 <= j < 60 && spec_tick_initialized(#[trigger] ticks[j]) implies
                    !(current < tick_position(start, j, tick_spacing) < t) by {
                    if current < tick_position(start, j, tick_spacing) < t {
                        assert(initialized_past(start, ticks, current, tick_spacing, false, j));
                        assert(j < i);
                    }
                }
            },
            None => {
                assert forall|j: int| 0 <= j < 60 && spec_tick_initialized(#[trigger] ticks[j]) implies
                    tick_position(start, j, tick_spacing) <= current by {
                    if j > q {
                        assert(!initialized_past(start, ticks, current, tick_spacing, false, j));
                    }
                }
            },
        }
    }
}

/// The last initialized slot at or below `i`.
pub open spec fn last_initialized(ticks: Seq<TickState>, i: int) -> Option<int>
    decreases i + 1,
{
    if i < 0 || i >= 60 {
        None
    } else if spec_tick_initialized(ticks[i]) {
        Some(i)
    } else {
        last_initialized(ticks, i - 1)
    }
}

/// The first initialized slot at or above `i`.
pub open spec fn first_initialized(ticks: Seq<TickState>, i: int) -> Option<int>
    decreases 60 - i,
{
    if i < 0 || i >= 60 {
        None
    } else if spec_tick_initialized(ticks[i]) {
        Some(i)
    } else {
        first_initialized(ticks, i + 1)
    }
}

/// The highest initialized tick of the array when selling token 0, else
/// the lowest.
pub open spec fn spec_first_or_last_initialized_tick(start: i32, ticks: Seq<TickState>, tick_spacing: u16, zero_for_one: bool) -> Option<i32> {
    let slot = if zero_for_one { last_initialized(ticks, 59) } else { first_initialized(ticks, 0) };
    match slot {
        Some(i) => Some(tick_position(start, i, tick_spacing) as i32),
        None => None,
    }
}

fn first_or_last_initialized_tick(array: &TickArrayState, tick_spacing: u16, zero_for_one: bool) -> (r: Option<i32>)
    requires
        spec_array_in_box(*array, tick_spacing),
    ensures
        r == spec_first_or_last_initialized_tick(array.start_tick_index, array.ticks@, tick_spacing, zero_for_one),
{
    let start = array.start_tick_index;
    let ts = tick_spacing as i32;
    if zero_for_one {
        let mut i: usize = 60;
        while i > 0
            invariant
                i <= 60,
                last_initialized(array.ticks@, 59) == last_initialized(array.ticks@, i - 1),
                zero_for_one,
                ts == tick_spacing,
                start == array.start_tick_index,
                spec_array_in_box(*array, tick_spacing),
            decreases i,
        {
            i = i - 1;
            if array.ticks[i].is_initialized() {
                proof {
                    assert(0 <= i * ts <= 59 * ts) by (nonlinear_arith) requires 0 <= i < 60, ts >= 0;
                }
                return Some(start + (i as i32) * ts);
            }
        }
    } else {
        let mut i: usize = 0;
        while i < 60
            invariant
                i <= 60,
                first_initialized(array.ticks@, 0) == first_initialized(array.ticks@, i as int),
                !zero_for_one,
                ts == tick_spacing,
                start == array.start_tick_index,
                spec_array_in_box(*array, tick_spacing),
            decreases 60 - i,
        {
            if array.ticks[i].is_initialized() {
                proof {
                    assert(0 <= i * ts <= 59 * ts) by (nonlinear_arith) requires 0 <= i < 60, ts >= 0;
                }
                return Some(start + (i as i32) * ts);
            }
            i = i + 1;
        }
    }
    None
}

/// The tick after the swap crosses it: outside fee growths of both tokens
/// and reward growths flip against the global values (the input token's at
/// its current growth, the other's and the rewards' at their starting
/// growth), wrapping.
pub open spec fn spec_crossed_tick(
    t: TickState,
    fee_growth_global_input_x64: u128,
    zero_for_one: bool,
    fee_growth_other: u128,
    rewards: [u128; 3],
) -> TickState {
    let (g0, g1) = if zero_for_one {
        (fee_growth_global_input_x64, fee_growth_other)
    } else {
        (fee_growth_other, fee_growth_global_input_x64)
    };
    TickState {
        fee_growth_outside_0_x64: ((g0 - t.fee_growth_outside_0_x64) % b128()) as u128,
        fee_growth_outside_1_x64: ((g1 - t.fee_growth_outside_1_x64) % b128()) as u128,
        reward_growths_outside_x64: [
            ((rewards[0] - t.reward_growths_outside_x64[0]) % b128()) as u128,
            ((rewards[1] - t.reward_growths_outside_x64[1]) % b128()) as u128,
            ((rewards[2] - t.reward_growths_outside_x64[2]) % b128()) as u128,
        ],
        ..t
    }
}

/// The slot of `tick_index` in an array starting at `start`.
pub open spec fn spec_cross_slot(start: i32, tick_index: i32, tick_spacing: u16) -> int {
    trunc_div(tick_index - start, tick_spacing as int)
}

/// The liquidity change of crossing a tick in the swap direction.
pub open spec fn spec_net_in_direction(net: i128, zero_for_one: bool) -> i128 {
    if zero_for_one { (-net) as i128 } else { net }
}

/// Crossing: `InvalidTickArray` when the tick has no slot in the array;
/// otherwise the crossed tick replaces it and the liquidity changes by the
/// tick's net liquidity in the swap direction. Gives the new ticks and
/// liquidity.
pub open spec fn spec_cross_tick(
    start: i32,
    ticks: Seq<TickState>,
    tick_index: i32,
    tick_spacing: u16,
    liquidity: u128,
    fee_growth_global_input_x64: u128,
    zero_for_one: bool,
    fee_growth_other: u128,
    rewards: [u128; 3],
) -> Result<(Seq<TickState>, u128)> {
    let slot = spec_cross_slot(start, tick_index, tick_spacing);
    if slot < 0 || slot >= 60 {
        Err(spec_program_error(ErrorCode::InvalidTickArray))
    } else {
        let t = ticks[slot];
        let crossed = spec_crossed_tick(t, fee_growth_global_input_x64, zero_for_one, fee_growth_other, rewards);
        match spec_add_delta(liquidity, spec_net_in_direction(t.liquidity_net, zero_for_one)) {
            Err(e) => Err(e),
            Ok(l) => Ok((ticks.update(slot, crossed), l)),
        }
    }
}

/// No tick of the array holds the most negative net liquidity, which has no
/// negation.
pub open spec fn spec_nets_negatable(a: TickArrayState) -> bool {
    forall|i: int| 0 <= i < 60 ==> (#[trigger] a.ticks[i]).liquidity_net != i128::MIN
}

fn cross_tick(
    array: &mut TickArrayState,
    tick_index: i32,
    tick_spacing: u16,
    state: &mut SwapState,
    fee_growth_global_input_x64: u128,
    zero_for_one: bool,
    fee_growth_global_other_at_start_x64: u128,
    reward_growths_at_start: &[u128; REWARD_NUM],
) -> (r: Result<()>)
    requires
        tick_spacing > 0,
        spec_nets_negatable(*old(array)),
        tick_box(tick_index as int),
        tick_box(old(array).start_tick_index as int),
    ensures
        ({
            let spec_r = spec_cross_tick(
                old(array).start_tick_index,
                old(array).ticks@,
                tick_index,
                tick_spacing,
                old(state).liquidity,
                fee_growth_global_input_x64,
                zero_for_one,
                fee_growth_global_other_at_start_x64,
                *reward_growths_at_start,
            );
            &&& r is Ok <==> spec_r is Ok
            &&& r matches Err(e) ==> spec_r == Err::<(Seq<TickState>, u128), ProgramError>(e)
            &&& spec_r matches Ok((ticks, l)) ==> final(array).ticks@ == ticks
                && *final(array) == (TickArrayState { ticks: final(array).ticks, ..*old(array) })
                && *final(state) == (SwapState { liquidity: l, ..*old(state) })
        }),
{
    let ts = tick_spacing as i32;
    let q = (tick_index - array.start_tick_index) / ts;
    if q < 0 || q >= 60 {
        return Err(ProgramError::from_code(ErrorCode::InvalidTickArray));
    }
    let offset = q as usize;
    let mut tick: TickState = array.ticks[offset];

    let (new_outside_0, new_outside_1) = if zero_for_one {
        (
            fee_growth_global_input_x64.wrapping_sub(tick.fee_growth_outside_0_x64),
            fee_growth_global_other_at_start_x64.wrapping_sub(tick.fee_growth_outside_1_x64),
        )
    } else {
        (
            fee_growth_global_other_at_start_x64.wrapping_sub(tick.fee_growth_outside_0_x64),
            fee_growth_global_input_x64.wrapping_sub(tick.fee_growth_outside_1_x64),
        )
    };
    tick.fee_growth_outside_0_x64 = new_outside_0;
    tick.fee_growth_outside_1_x64 = new_outside_1;

    let mut i: usize = 0;
    let ghost before = tick;
    while i < REWARD_NUM
        invariant
            0 <= i <= 3,
            tick == (TickState { reward_growths_outside_x64: tick.reward_growths_outside_x64, ..before }),
            forall|j: int| 0 <= j < i ==> #[trigger] tick.reward_growths_outside_x64[j]
                == ((reward_growths_at_start[j] - before.reward_growths_outside_x64[j]) % b128()) as u128,
            forall|j: int| i <= j < 3 ==> #[trigger] tick.reward_growths_outside_x64[j] == before.reward_growths_outside_x64[j],
        decreases 3 - i,
    {
        tick.reward_growths_outside_x64[i] = reward_growths_at_start[i].wrapping_sub(tick.reward_growths_outside_x64[i]);
        i = i + 1;
    }
    let net = tick.liquidity_net;
    array.ticks[offset] = tick;
    proof {
        assert(tick.reward_growths_outside_x64 =~= spec_crossed_tick(
            old(array).ticks[offset as int], fee_growth_global_input_x64, zero_for_one,
            fee_growth_global_other_at_start_x64, *reward_growths_at_start).reward_growths_outside_x64);
    }

    let liquidity_net = if zero_for_one { -net } else { net };
    state.liquidity = add_delta(state.liquidity, liquidity_net)?;
    Ok(())
}

// ---------------------------------------------------------------------------
// Observations

/// The observation ring after a swap at `now` ending at `tick`: the first
/// update initializes the current slot; later ones fill the next slot
/// (wrapping around the ring) at least 15 seconds after the last, with the
/// accumulated tick advanced by `tick * elapsed` (wrapping); nothing changes
/// before 15 seconds have passed.
pub open spec fn spec_observation_updated(s: ObservationState, n: ObservationState, now: u32, tick: i32) -> bool {
    let idx = s.observation_index as int;
    if s.initialized == 0 {
        &&& n == (ObservationState { initialized: 1, observations: n.observations, ..s })
        &&& n.observations@ == s.observations@.update(idx, Observation {
                block_timestamp: now,
                tick_cumulative: 0,
                ..s.observations[idx]
            })
    } else {
        let last = s.observations[idx];
        let delta: int = if now >= last.block_timestamp { now - last.block_timestamp } else { 0 };
        if delta < OBSERVATION_UPDATE_DURATION_DEFAULT {
            n == s
        } else {
            let next_idx: int = if idx == 99 { 0 } else { idx + 1 };
            let cum = vstd::wrapping::i64_specs::wrapping_add(last.tick_cumulative, (tick * delta) as i64);
            &&& n == (ObservationState { observations: n.observations, observation_index: next_idx as u16, ..s })
            &&& n.observations@ == s.observations@.update(next_idx, Observation {
                    block_timestamp: now,
                    tick_cumulative: cum,
                    ..s.observations[next_idx]
                })
        }
    }
}

fn update_observation(state: &mut ObservationState, block_timestamp: u32, tick: i32)
    requires
        old(state).observation_index < OBSERVATION_NUM,
    ensures
        spec_observation_updated(*old(state), *final(state), block_timestamp, tick),
{
    let observation_index = state.observation_index as usize;
    if state.initialized == 0 {
        state.initialized = 1;
        let mut o = state.observations[observation_index];
        o.block_timestamp = block_timestamp;
        o.tick_cumulative = 0;
        state.observations[observation_index] = o;
        return;
    }
    let last = state.observations[observation_index];
    let last_ts = last.block_timestamp;
    let delta_time = block_timestamp.saturating_sub(last_ts);
    if delta_time < OBSERVATION_UPDATE_DURATION_DEFAULT {
        return;
    }
    proof {
        assert(-0x8000_0000 * 0xffff_ffff <= (tick as int) * (delta_time as int) <= 0x7fff_ffff * 0xffff_ffff) by (nonlinear_arith)
            requires -0x8000_0000 <= tick <= 0x7fff_ffff, 0 <= delta_time <= 0xffff_ffff;
    }
    let delta_cum = (tick as i64) * (delta_time as i64);
    let next_idx = if observation_index == OBSERVATION_NUM - 1 { 0 } else { observation_index + 1 };
    let mut o = state.observations[next_idx];
    o.block_timestamp = block_timestamp;
    let last_cum = last.tick_cumulative;
    o.tick_cumulative = last_cum.wrapping_add(delta_cum);
    state.observations[next_idx] = o;
    state.observation_index = next_idx as u16;
}

// ---------------------------------------------------------------------------
// The swap loop

/// Most steps one swap takes; a swap needing more fails with
/// `LiquidityInsufficient`.
pub const MAX_SWAP_STEPS: u32 = 4096;

/// The fixed parameters of one swap.
#[derive(Clone, Copy)]
pub struct SwapParams {
    pub tick_spacing: u16,
    pub zero_for_one: bool,
    pub is_base_input: bool,
    pub is_fee_on_input: bool,
    pub trade_fee_rate: u32,
    pub protocol_fee_rate: u32,
    pub fund_fee_rate: u32,
    pub sqrt_price_limit_x64: u128,
    pub sqrt_price_x64_at_start: u128,
    pub fee_growth_global_x64_at_start: u128,
    pub reward_growths_at_start: [u128; REWARD_NUM],
}

/// Whether the fee is charged on the input token, from the pool's fee mode.
pub open spec fn spec_fee_on_input(fee_on: u8, zero_for_one: bool) -> bool {
    if fee_on == 1 { zero_for_one } else if fee_on == 2 { !zero_for_one } else { true }
}

/// The tick contents of each array of a path.
pub open spec fn ticks_of(entries: Seq<TickArrayState>) -> Seq<Seq<TickState>> {
    Seq::new(entries.len(), |i: int| entries[i].ticks@)
}

/// Two array sequences agree everywhere but in their ticks.
pub open spec fn same_but_ticks(a: Seq<TickArrayState>, b: Seq<TickArrayState>) -> bool {
    &&& a.len() == b.len()
    &&& forall|i: int| 0 <= i < a.len() ==> #[trigger] b[i] == (TickArrayState { ticks: b[i].ticks, ..a[i] })
}

/// The specified and calculated amounts after a step: the specified amount
/// shrinks by what the step used of it, the calculated amount grows by the
/// other side; `CalculateOverflow` where either leaves `u64`.
pub open spec fn spec_step_amount_update(s: SwapState, step: SwapComputationResult, is_base_input: bool, is_fee_on_input: bool) -> Result<SwapState> {
    if is_base_input {
        let consumed: int = if is_fee_on_input { step.amount_in + step.fee_amount } else { step.amount_in as int };
        if consumed > u64::MAX {
            Err(spec_program_error(ErrorCode::CalculateOverflow))
        } else if s.amount_specified_remaining < consumed {
            Err(spec_program_error(ErrorCode::CalculateOverflow))
        } else if s.amount_calculated + step.amount_out > u64::MAX {
            Err(spec_program_error(ErrorCode::CalculateOverflow))
        } else {
            Ok(SwapState {
                amount_specified_remaining: (s.amount_specified_remaining - consumed) as u64,
                amount_calculated: (s.amount_calculated + step.amount_out) as u64,
                ..s
            })
        }
    } else {
        let received: int = if is_fee_on_input { step.amount_out as int } else { step.amount_out + step.fee_amount };
        if received > u64::MAX {
            Err(spec_program_error(ErrorCode::CalculateOverflow))
        } else if s.amount_specified_remaining < received {
            Err(spec_program_error(ErrorCode::CalculateOverflow))
        } else if s.amount_calculated + step.amount_in > u64::MAX {
            Err(spec_program_error(ErrorCode::CalculateOverflow))
        } else {
            Ok(SwapState {
                amount_specified_remaining: (s.amount_specified_remaining - received) as u64,
                amount_calculated: (s.amount_calculated + step.amount_in) as u64,
                ..s
            })
        }
    }
}

/// The fee of a step charged on input, split into the protocol's share, the
/// fund's share (each `fee * rate / 1e6`, rounded down) and the liquidity
/// providers' rest, which raises the fee growth by `rest * 2^64 / L`
/// (wrapping) where there is liquidity.
pub open spec fn spec_fee_split(s: SwapState, fee: u64, is_fee_on_input: bool, protocol_fee_rate: u32, fund_fee_rate: u32) -> Result<SwapState> {
    if !(fee > 0 && is_fee_on_input) {
        Ok(s)
    } else {
        let d = FEE_RATE_DENOMINATOR_VALUE as int;
        let protocol_cut = fee * protocol_fee_rate / d;
        let fund_cut = fee * fund_fee_rate / d;
        if protocol_cut + fund_cut > fee {
            Err(spec_program_error(ErrorCode::CalculateOverflow))
        } else if s.protocol_fee_input + (protocol_cut as u64) > u64::MAX {
            Err(spec_program_error(ErrorCode::CalculateOverflow))
        } else if s.fund_fee_input + (fund_cut as u64) > u64::MAX {
            Err(spec_program_error(ErrorCode::CalculateOverflow))
        } else {
            let lp_cut = fee - protocol_cut - fund_cut;
            let s2 = SwapState {
                protocol_fee_input: (s.protocol_fee_input + (protocol_cut as u64)) as u64,
                fund_fee_input: (s.fund_fee_input + (fund_cut as u64)) as u64,
                ..s
            };
            if s.liquidity > 0 {
                match spec_mul_div_floor(lp_cut, b64(), s.liquidity as int, b128()) {
                    None => Err(spec_program_error(ErrorCode::CalculateOverflow)),
                    Some(g) => Ok(SwapState {
                        fee_growth_global_input_x64: ((s.fee_growth_global_input_x64 + g) % b128()) as u128,
                        ..s2
                    }),
                }
            } else {
                Ok(s2)
            }
        }
    }
}

/// Where the step goes next: the next initialized tick in the current
/// array, else the first one of the next array (which becomes current);
/// `LiquidityInsufficient` when neither exists.
pub open spec fn spec_next_tick(p: SwapParams, entries: Seq<TickArrayState>, s: SwapState, ticks: Seq<Seq<TickState>>, current: int, head: int) -> Result<(int, int, i32)> {
    match spec_find_next_initialized_tick(entries[current].start_tick_index, ticks[current], s.tick_current, p.tick_spacing, p.zero_for_one) {
        Some(t) => Ok((current, head, t)),
        None => if head >= entries.len() {
            Err(spec_program_error(ErrorCode::LiquidityInsufficient))
        } else {
            match spec_first_or_last_initialized_tick(entries[head].start_tick_index, ticks[head], p.tick_spacing, p.zero_for_one) {
                None => Err(spec_program_error(ErrorCode::LiquidityInsufficient)),
                Some(t) => Ok((head, head + 1, t)),
            }
        },
    }
}

/// The price a step aims at: the next tick's price, bounded by the limit.
pub open spec fn spec_step_target(p: SwapParams, next_price: u128) -> u128 {
    if p.zero_for_one {
        if next_price > p.sqrt_price_limit_x64 { next_price } else { p.sqrt_price_limit_x64 }
    } else {
        if next_price < p.sqrt_price_limit_x64 { next_price } else { p.sqrt_price_limit_x64 }
    }
}

/// One step of the swap loop: find the next tick, swap toward it (or the
/// limit), account the amounts and fees, then cross the tick when it was
/// reached, or else recompute the current tick from the new price when the
/// price moved.
#[verifier::opaque]
pub open spec fn spec_swap_step(p: SwapParams, entries: Seq<TickArrayState>, s: SwapState, ticks: Seq<Seq<TickState>>, current: int, head: int) -> Result<(SwapState, Seq<Seq<TickState>>, int, int)> {
    match spec_next_tick(p, entries, s, ticks, current, head) {
        Err(e) => Err(e),
        Ok((c, h, next_tick)) => match spec_get_sqrt_price_at_tick(next_tick) {
            Err(e) => Err(e),
            Ok(next_price) => {
                let target = spec_step_target(p, next_price);
                match spec_compute_swap(s.sqrt_price_x64, target, s.liquidity, s.amount_specified_remaining, p.trade_fee_rate, p.is_base_input, p.zero_for_one, p.is_fee_on_input) {
                    Err(e) => Err(e),
                    Ok(step) => match spec_step_amount_update(s, step, p.is_base_input, p.is_fee_on_input) {
                        Err(e) => Err(e),
                        Ok(s1) => match spec_fee_split(s1, step.fee_amount, p.is_fee_on_input, p.protocol_fee_rate, p.fund_fee_rate) {
                            Err(e) => Err(e),
                            Ok(s2) => {
                                let s3 = SwapState { sqrt_price_x64: step.sqrt_price_next_x64, ..s2 };
                                if s3.sqrt_price_x64 == next_price && s3.sqrt_price_x64 == target {
                                    match spec_cross_tick(entries[c].start_tick_index, ticks[c], next_tick, p.tick_spacing, s3.liquidity,
                                        s3.fee_growth_global_input_x64, p.zero_for_one, p.fee_growth_global_x64_at_start, p.reward_growths_at_start) {
                                        Err(e) => Err(e),
                                        Ok((t2, l)) => Ok((
                                            SwapState { liquidity: l, tick_current: if p.zero_for_one { (next_tick - 1) as i32 } else { next_tick }, ..s3 },
                                            ticks.update(c, t2),
                                            c,
                                            h,
                                        )),
                                    }
                                } else if s3.sqrt_price_x64 != p.sqrt_price_x64_at_start {
                                    match spec_get_tick_at_sqrt_price(s3.sqrt_price_x64) {
                                        Err(e) => Err(e),
                                        Ok(t) => Ok((SwapState { tick_current: t, ..s3 }, ticks, c, h)),
                                    }
                                } else {
                                    Ok((s3, ticks, c, h))
                                }
                            },
                        },
                    },
                }
            },
        },
    }
}

/// The swap loop: steps until the specified amount is used up or the price
/// reaches the limit, at most `fuel` steps (`LiquidityInsufficient` beyond).
pub open spec fn spec_swap_run(p: SwapParams, entries: Seq<TickArrayState>, s: SwapState, ticks: Seq<Seq<TickState>>, current: int, head: int, fuel: nat) -> Result<(SwapState, Seq<Seq<TickState>>, int, int)>
    decreases fuel,
{
    if !(s.amount_specified_remaining != 0 && s.sqrt_price_x64 != p.sqrt_price_limit_x64) {
        Ok((s, ticks, current, head))
    } else if fuel == 0 {
        Err(spec_program_error(ErrorCode::LiquidityInsufficient))
    } else {
        match spec_swap_step(p, entries, s, ticks, current, head) {
            Err(e) => Err(e),
            Ok((s2, t2, c2, h2)) => spec_swap_run(p, entries, s2, t2, c2, h2, (fuel - 1) as nat),
        }
    }
}

/// Everything the loop relies on: a positive spacing, a fee rate of at most
/// 100%, every array within the box with negatable net liquidities, the
/// current array and tick within range.
pub open spec fn loop_ok(p: SwapParams, entries: Seq<TickArrayState>, s: SwapState, ticks: Seq<Seq<TickState>>, current: int, head: int) -> bool {
    &&& p.tick_spacing > 0
    &&& p.trade_fee_rate <= FEE_RATE_DENOMINATOR_VALUE
    &&& 0 <= current < head <= entries.len()
    &&& ticks.len() == entries.len()
    &&& forall|i: int| 0 <= i < entries.len() ==> spec_array_in_box(#[trigger] entries[i], p.tick_spacing)
    &&& forall|i: int| 0 <= i < entries.len() ==> (#[trigger] ticks[i]).len() == 60
    &&& forall|i: int, j: int| 0 <= i < entries.len() && 0 <= j < 60 ==> (#[trigger] ticks[i][j]).liquidity_net != i128::MIN
    &&& tick_box(s.tick_current as int)
}

/// A tick found by scanning down lies within the array's span.
proof fn lemma_search_down_in_span(start: i32, ticks: Seq<TickState>, current: i32, tick_spacing: u16, idx: int)
    requires
        tick_spacing > 0,
        start + 60 * tick_spacing <= 0x2000_0000,
    ensures
        search_down(start, ticks, current, tick_spacing, idx) matches Some(t) ==> start <= t <= start + 59 * tick_spacing,
    decreases idx + 1,
{
    if 0 <= idx < 60 {
        assert(0 <= idx * tick_spacing <= 59 * tick_spacing) by (nonlinear_arith) requires 0 <= idx < 60, tick_spacing > 0;
        lemma_search_down_in_span(start, ticks, current, tick_spacing, idx - 1);
    }
}

/// A tick found by scanning up lies within the array's span.
proof fn lemma_search_up_in_span(start: i32, ticks: Seq<TickState>, current: i32, tick_spacing: u16, idx: int)
    requires
        tick_spacing > 0,
        start + 60 * tick_spacing <= 0x2000_0000,
    ensures
        search_up(start, ticks, current, tick_spacing, idx) matches Some(t) ==> start <= t <= start + 59 * tick_spacing,
    decreases 60 - idx,
{
    if 0 <= idx < 60 {
        assert(0 <= idx * tick_spacing <= 59 * tick_spacing) by (nonlinear_arith) requires 0 <= idx < 60, tick_spacing > 0;
        lemma_search_up_in_span(start, ticks, current, tick_spacing, idx + 1);
    }
}

/// The slot found by `last_initialized` is a slot.
proof fn lemma_last_initialized_slot(ticks: Seq<TickState>, i: int)
    ensures
        last_initialized(ticks, i) matches Some(k) ==> 0 <= k < 60,
    decreases i + 1,
{
    if 0 <= i < 60 {
        lemma_last_initialized_slot(ticks, i - 1);
    }
}

/// The slot found by `first_initialized` is a slot.
proof fn lemma_first_initialized_slot(ticks: Seq<TickState>, i: int)
    ensures
        first_initialized(ticks, i) matches Some(k) ==> 0 <= k < 60,
    decreases 60 - i,
{
    if 0 <= i < 60 {
        lemma_first_initialized_slot(ticks, i + 1);
    }
}

/// Every tick the loop can step to lies within its array's span.
proof fn lemma_next_tick_in_span(p: SwapParams, entries: Seq<TickArrayState>, s: SwapState, ticks: Seq<Seq<TickState>>, current: int, head: int)
    requires
        loop_fixed_ok(p, entries),
        0 <= current < head <= entries.len(),
    ensures
        spec_next_tick(p, entries, s, ticks, current, head) matches Ok((c, h, t)) ==> 0 <= c < h <= entries.len()
            && (h == head || (c == head && h == head + 1))
            && entries[c].start_tick_index <= t <= entries[c].start_tick_index + 59 * p.tick_spacing,
{
    let st = entries[current].start_tick_index;
    let q = trunc_div(s.tick_current - st, p.tick_spacing as int);
    lemma_search_down_in_span(st, ticks[current], s.tick_current, p.tick_spacing, if q >= 60 { 59 } else { q });
    lemma_search_up_in_span(st, ticks[current], s.tick_current, p.tick_spacing, if q + 1 < 0 { 0 } else { q + 1 });
    if head < entries.len() {
        lemma_last_initialized_slot(ticks[head], 59);
        lemma_first_initialized_slot(ticks[head], 0);
        let k = if p.zero_for_one { last_initialized(ticks[head], 59) } else { first_initialized(ticks[head], 0) };
        if k is Some {
            let kk = k->0;
            assert(0 <= kk * p.tick_spacing <= 59 * p.tick_spacing) by (nonlinear_arith)
                requires 0 <= kk < 60, p.tick_spacing > 0;
        }
    }
}

/// Accounts a step's amounts.
fn step_amount_update(state: &mut SwapState, step: &SwapComputationResult, is_base_input: bool, is_fee_on_input: bool) -> (r: Result<()>)
    ensures
        ({
            let sr = spec_step_amount_update(*old(state), *step, is_base_input, is_fee_on_input);
            &&& r is Ok <==> sr is Ok
            &&& r matches Err(e) ==> sr == Err::<SwapState, ProgramError>(e)
            &&& sr matches Ok(s2) ==> *final(state) == s2
        }),
{
    if is_base_input {
        let consumed = if is_fee_on_input {
            match step.amount_in.checked_add(step.fee_amount) {
                Some(v) => v,
                None => return Err(ProgramError::from_code(ErrorCode::CalculateOverflow)),
            }
        } else {
            step.amount_in
        };
        state.amount_specified_remaining = match state.amount_specified_remaining.checked_sub(consumed) {
            Some(v) => v,
            None => return Err(ProgramError::from_code(ErrorCode::CalculateOverflow)),
        };
        state.amount_calculated = match state.amount_calculated.checked_add(step.amount_out) {
            Some(v) => v,
            None => return Err(ProgramError::from_code(ErrorCode::CalculateOverflow)),
        };
    } else {
        let received = if is_fee_on_input {
            step.amount_out
        } else {
            match step.amount_out.checked_add(step.fee_amount) {
                Some(v) => v,
                None => return Err(ProgramError::from_code(ErrorCode::CalculateOverflow)),
            }
        };
        state.amount_specified_remaining = match state.amount_specified_remaining.checked_sub(received) {
            Some(v) => v,
            None => return Err(ProgramError::from_code(ErrorCode::CalculateOverflow)),
        };
        state.amount_calculated = match state.amount_calculated.checked_add(step.amount_in) {
            Some(v) => v,
            None => return Err(ProgramError::from_code(ErrorCode::CalculateOverflow)),
        };
    }
    Ok(())
}

/// Splits a step's input fee between protocol, fund and liquidity providers.
fn fee_split(state: &mut SwapState, fee_amount: u64, is_fee_on_input: bool, protocol_fee_rate: u32, fund_fee_rate: u32) -> (r: Result<()>)
    ensures
        ({
            let sr = spec_fee_split(*old(state), fee_amount, is_fee_on_input, protocol_fee_rate, fund_fee_rate);
            &&& r is Ok <==> sr is Ok
            &&& r matches Err(e) ==> sr == Err::<SwapState, ProgramError>(e)
            &&& sr matches Ok(s2) ==> *final(state) == s2
        }),
{
    if fee_amount > 0 && is_fee_on_input {
        proof {
            assert(fee_amount as int * protocol_fee_rate as int <= 0xffff_ffff_ffff_ffff * 0xffff_ffff) by (nonlinear_arith);
            assert(fee_amount as int * fund_fee_rate as int <= 0xffff_ffff_ffff_ffff * 0xffff_ffff) by (nonlinear_arith);
        }
        let protocol_cut = match (fee_amount as u128).checked_mul(protocol_fee_rate as u128) {
            Some(v) => v,
            None => return Err(ProgramError::from_code(ErrorCode::CalculateOverflow)),
        } / FEE_RATE_DENOMINATOR_VALUE as u128;
        let fund_cut = match (fee_amount as u128).checked_mul(fund_fee_rate as u128) {
            Some(v) => v,
            None => return Err(ProgramError::from_code(ErrorCode::CalculateOverflow)),
        } / FEE_RATE_DENOMINATOR_VALUE as u128;
        let lp_cut = match (fee_amount as u128).checked_sub(protocol_cut) {
            Some(v) => match v.checked_sub(fund_cut) {
                Some(w) => w,
                None => return Err(ProgramError::from_code(ErrorCode::CalculateOverflow)),
            },
            None => return Err(ProgramError::from_code(ErrorCode::CalculateOverflow)),
        };
        state.protocol_fee_input = match state.protocol_fee_input.checked_add(protocol_cut as u64) {
            Some(v) => v,
            None => return Err(ProgramError::from_code(ErrorCode::CalculateOverflow)),
        };
        state.fund_fee_input = match state.fund_fee_input.checked_add(fund_cut as u64) {
            Some(v) => v,
            None => return Err(ProgramError::from_code(ErrorCode::CalculateOverflow)),
        };
        if state.liquidity > 0 {
            let scaled = match U128::from_u64(lp_cut as u64).mul_div_floor(
                U128::from_u128(Q64),
                U128::from_u128(state.liquidity),
            ) {
                Some(v) => v,
                None => return Err(ProgramError::from_code(ErrorCode::CalculateOverflow)),
            };
            state.fee_growth_global_input_x64 = state.fee_growth_global_input_x64.wrapping_add(scaled.as_u128());
        }
    }
    Ok(())
}

/// Runs one step of the swap loop.
#[verifier::rlimit(80)]
#[verifier::spinoff_prover]
fn swap_step(p: &SwapParams, tick_arrays: &mut TickArrayPath, state: &mut SwapState, current: &mut usize) -> (r: Result<()>)
    requires
        old(tick_arrays).wf(),
        loop_ok(*p, old(tick_arrays).entries(), *old(state), ticks_of(old(tick_arrays).entries()), *old(current) as int, old(tick_arrays).head()),
    ensures
        ({
            let e0 = old(tick_arrays).entries();
            let sr = spec_swap_step(*p, e0, *old(state), ticks_of(e0), *old(current) as int, old(tick_arrays).head());
            &&& r is Ok <==> sr is Ok
            &&& r matches Err(e) ==> sr == Err::<(SwapState, Seq<Seq<TickState>>, int, int), ProgramError>(e)
            &&& sr matches Ok((s2, t2, c2, h2)) ==> {
                &&& *final(state) == s2
                &&& ticks_of(final(tick_arrays).entries()) == t2
                &&& *final(current) as int == c2
                &&& final(tick_arrays).head() == h2
                &&& same_but_ticks(e0, final(tick_arrays).entries())
                &&& final(tick_arrays).wf()
                &&& loop_ok(*p, final(tick_arrays).entries(), s2, t2, c2, h2)
            }
        }),
{
    let ghost e0 = tick_arrays.entries();
    let ghost t0 = ticks_of(e0);
    let ghost s0 = *state;
    let ghost h0 = tick_arrays.head();
    proof {
        reveal(spec_swap_step);
        lemma_next_tick_in_span(*p, e0, *state, t0, *current as int, tick_arrays.head());
        assert(t0[*current as int] == e0[*current as int].ticks@);
    }
    let ts = p.tick_spacing;
    let zero_for_one = p.zero_for_one;
    let cur_idx = *current;
    let found = find_next_initialized_tick(tick_arrays.get(cur_idx), state.tick_current, ts, zero_for_one);
    assert(found == spec_find_next_initialized_tick(e0[cur_idx as int].start_tick_index, t0[cur_idx as int], state.tick_current, ts, zero_for_one));
    let (c, next_tick_index) = match found {
        Some(t) => (cur_idx, t),
        None => {
            let popped = match tick_arrays.pop_front() {
                Some(i) => i,
                None => {
                    assert(spec_next_tick(*p, e0, *state, t0, cur_idx as int, tick_arrays.head()) is Err);
                    return Err(ProgramError::from_code(ErrorCode::LiquidityInsufficient));
                },
            };
            proof { assert(t0[popped as int] == e0[popped as int].ticks@); }
            let t = match first_or_last_initialized_tick(tick_arrays.get(popped), ts, zero_for_one) {
                Some(t) => t,
                None => {
                    assert(popped as int == h0);
                    assert(found is None);
                    assert(h0 < e0.len());
                    assert(spec_first_or_last_initialized_tick(e0[h0].start_tick_index, t0[h0], ts, zero_for_one) is None);
                    assert(spec_find_next_initialized_tick(e0[cur_idx as int].start_tick_index, t0[cur_idx as int], s0.tick_current, p.tick_spacing, p.zero_for_one) is None);
                    assert(spec_next_tick(*p, e0, s0, t0, cur_idx as int, h0) is Err);
                    return Err(ProgramError::from_code(ErrorCode::LiquidityInsufficient));
                },
            };
            (popped, t)
        },
    };
    assert(spec_next_tick(*p, e0, s0, t0, cur_idx as int, h0) == Ok::<(int, int, i32), ProgramError>((c as int, tick_arrays.head(), next_tick_index)));
    *current = c;
    let next_tick_sqrt_price = get_sqrt_price_at_tick(next_tick_index)?;
    let step_target_price = if zero_for_one {
        if next_tick_sqrt_price > p.sqrt_price_limit_x64 { next_tick_sqrt_price } else { p.sqrt_price_limit_x64 }
    } else {
        if next_tick_sqrt_price < p.sqrt_price_limit_x64 { next_tick_sqrt_price } else { p.sqrt_price_limit_x64 }
    };
    let step = compute_swap(
        state.sqrt_price_x64,
        step_target_price,
        state.liquidity,
        state.amount_specified_remaining,
        p.trade_fee_rate,
        p.is_base_input,
        zero_for_one,
        p.is_fee_on_input,
    )?;
    step_amount_update(state, &step, p.is_base_input, p.is_fee_on_input)?;
    fee_split(state, step.fee_amount, p.is_fee_on_input, p.protocol_fee_rate, p.fund_fee_rate)?;
    state.sqrt_price_x64 = step.sqrt_price_next_x64;
    if state.sqrt_price_x64 == next_tick_sqrt_price && state.sqrt_price_x64 == step_target_price {
        let fee_growth_global_input_for_cross = state.fee_growth_global_input_x64;
        let mut arr = *tick_arrays.get(c);
        proof {
            assert(t0[c as int] == arr.ticks@);
            assert forall|j: int| 0 <= j < 60 implies (#[trigger] arr.ticks[j]).liquidity_net != i128::MIN by {
                assert(t0[c as int][j] == arr.ticks[j]);
            }
        }
        let res = cross_tick(
            &mut arr,
            next_tick_index,
            ts,
            state,
            fee_growth_global_input_for_cross,
            zero_for_one,
            p.fee_growth_global_x64_at_start,
            &p.reward_growths_at_start,
        );
        tick_arrays.set(c, arr);
        res?;
        state.tick_current = if zero_for_one { next_tick_index - 1 } else { next_tick_index };
        proof {
            let e1 = tick_arrays.entries();
            assert(ticks_of(e1) =~= t0.update(c as int, arr.ticks@));
            assert forall|i: int, j: int| 0 <= i < e1.len() && 0 <= j < 60 implies (#[trigger] ticks_of(e1)[i][j]).liquidity_net != i128::MIN by {
                if i == c as int {
                    assert(ticks_of(e1)[i][j] == arr.ticks[j]);
                } else {
                    assert(ticks_of(e1)[i][j] == t0[i][j]);
                }
            }
            assert forall|i: int| 0 <= i < e1.len() implies spec_array_in_box(#[trigger] e1[i], ts) by {
                assert(e1[i].start_tick_index == e0[i].start_tick_index);
            }
        }
    } else if state.sqrt_price_x64 != p.sqrt_price_x64_at_start {
        state.tick_current = get_tick_at_sqrt_price(state.sqrt_price_x64)?;
    }
    proof {
        let e1 = tick_arrays.entries();
        assert(same_but_ticks(e0, e1));
        assert forall|i: int| 0 <= i < e1.len() implies (#[trigger] ticks_of(e1)[i]).len() == 60 by {
            assert(ticks_of(e1)[i] == e1[i].ticks@);
        }
    }
    Ok(())
}

/// Taking arrays from position `h` on, the first whose span holds `tick`:
/// its position and the next position to take.
pub open spec fn spec_first_array(entries: Seq<TickArrayState>, h: int, tick: i32, tick_spacing: u16) -> Option<(int, int)>
    decreases entries.len() - h,
{
    if h < 0 || h >= entries.len() {
        None
    } else if spec_array_contains_tick(entries[h], tick, tick_spacing) {
        Some((h, h + 1))
    } else {
        spec_first_array(entries, h + 1, tick, tick_spacing)
    }
}

/// The array found holds the tick.
proof fn lemma_first_array_found(entries: Seq<TickArrayState>, h: int, tick: i32, tick_spacing: u16)
    ensures
        spec_first_array(entries, h, tick, tick_spacing) matches Some((c, _n))
            ==> spec_array_contains_tick(entries[c], tick, tick_spacing),
    decreases entries.len() - h,
{
    if 0 <= h < entries.len() && !spec_array_contains_tick(entries[h], tick, tick_spacing) {
        lemma_first_array_found(entries, h + 1, tick, tick_spacing);
    }
}

/// The array found lies at or after `h`, and the next position follows it.
proof fn lemma_first_array_bounds(entries: Seq<TickArrayState>, h: int, tick: i32, tick_spacing: u16)
    ensures
        spec_first_array(entries, h, tick, tick_spacing) matches Some((c, n)) ==> 0 <= h <= c < entries.len() && n == c + 1,
    decreases entries.len() - h,
{
    if 0 <= h < entries.len() && !spec_array_contains_tick(entries[h], tick, tick_spacing) {
        lemma_first_array_bounds(entries, h + 1, tick, tick_spacing);
    }
}

/// The parameters of a swap on `pool` (after its rewards accrued to `now`).
pub open spec fn spec_swap_params(pool: PoolState, config: AmmConfig, limit: u128, zero_for_one: bool, is_base_input: bool, now: u64) -> SwapParams {
    SwapParams {
        tick_spacing: pool.tick_spacing,
        zero_for_one,
        is_base_input,
        is_fee_on_input: spec_fee_on_input(pool.fee_on, zero_for_one),
        trade_fee_rate: config.trade_fee_rate,
        protocol_fee_rate: config.protocol_fee_rate,
        fund_fee_rate: config.fund_fee_rate,
        sqrt_price_limit_x64: limit,
        sqrt_price_x64_at_start: pool.sqrt_price_x64,
        fee_growth_global_x64_at_start: if zero_for_one { pool.fee_growth_global_0_x64 } else { pool.fee_growth_global_1_x64 },
        reward_growths_at_start: [
            spec_reward_update(pool.reward_infos[0], now, pool.liquidity).reward_growth_global_x64,
            spec_reward_update(pool.reward_infos[1], now, pool.liquidity).reward_growth_global_x64,
            spec_reward_update(pool.reward_infos[2], now, pool.liquidity).reward_growth_global_x64,
        ],
    }
}

/// Whether the price limit lies strictly between the current price and the
/// price bound in the swap direction.
pub open spec fn spec_limit_ok(price: u128, limit: u128, zero_for_one: bool) -> bool {
    if zero_for_one {
        limit < price && limit > MIN_SQRT_PRICE_X64
    } else {
        limit > price && limit < MAX_SQRT_PRICE_X64
    }
}

/// The amounts reported for a swap that used `used` of the specified amount
/// and calculated `calculated` of the other token.
pub open spec fn spec_swap_amounts(used: u64, calculated: u64, zero_for_one: bool, is_base_input: bool) -> SwapInternalResult {
    if is_base_input {
        if zero_for_one {
            SwapInternalResult { amount_0: used, amount_1: calculated }
        } else {
            SwapInternalResult { amount_0: calculated, amount_1: used }
        }
    } else {
        if zero_for_one {
            SwapInternalResult { amount_0: calculated, amount_1: used }
        } else {
            SwapInternalResult { amount_0: used, amount_1: calculated }
        }
    }
}

/// The whole swap: a zero amount fails with `InvaildSwapAmountSpecified`, a
/// limit on the wrong side with `SqrtPriceLimitOverflow`, a path without an
/// array holding the current tick with `NotEnoughTickArrayAccount`; then the
/// loop runs and the input side's protocol and fund fees grow by what it
/// collected (`CalculateOverflow` beyond `u64`). Gives the final loop state,
/// tick contents, next array position, new protocol and fund fees of the
/// input side, and the reported amounts.
pub open spec fn spec_swap_internal(
    pool: PoolState,
    entries: Seq<TickArrayState>,
    head: int,
    config: AmmConfig,
    amount_specified: u64,
    limit: u128,
    zero_for_one: bool,
    is_base_input: bool,
    now: u64,
) -> Result<(SwapState, Seq<Seq<TickState>>, int, u64, u64, SwapInternalResult)> {
    if amount_specified == 0 {
        Err(spec_program_error(ErrorCode::InvaildSwapAmountSpecified))
    } else if !spec_limit_ok(pool.sqrt_price_x64, limit, zero_for_one) {
        Err(spec_program_error(ErrorCode::SqrtPriceLimitOverflow))
    } else {
        let p = spec_swap_params(pool, config, limit, zero_for_one, is_base_input, now);
        let s0 = SwapState {
            sqrt_price_x64: pool.sqrt_price_x64,
            liquidity: pool.liquidity,
            fee_growth_global_input_x64: p.fee_growth_global_x64_at_start,
            protocol_fee_input: 0,
            fund_fee_input: 0,
            amount_specified_remaining: amount_specified,
            amount_calculated: 0,
            tick_current: pool.tick_current,
        };
        match spec_first_array(entries, head, pool.tick_current, pool.tick_spacing) {
            None => Err(spec_program_error(ErrorCode::NotEnoughTickArrayAccount)),
            Some((c, h)) => match spec_swap_run(p, entries, s0, ticks_of(entries), c, h, MAX_SWAP_STEPS as nat) {
                Err(e) => Err(e),
                Ok((s, t, _c2, h2)) => {
                    let pf: int = if zero_for_one { pool.protocol_fees_token_0 + s.protocol_fee_input } else { pool.protocol_fees_token_1 + s.protocol_fee_input };
                    let ff: int = if zero_for_one { pool.fund_fees_token_0 + s.fund_fee_input } else { pool.fund_fees_token_1 + s.fund_fee_input };
                    if pf > u64::MAX {
                        Err(spec_program_error(ErrorCode::CalculateOverflow))
                    } else if ff > u64::MAX {
                        Err(spec_program_error(ErrorCode::CalculateOverflow))
                    } else if amount_specified < s.amount_specified_remaining {
                        Err(spec_program_error(ErrorCode::CalculateOverflow))
                    } else {
                        let used = (amount_specified - s.amount_specified_remaining) as u64;
                        Ok((s, t, h2, pf as u64, ff as u64, spec_swap_amounts(used, s.amount_calculated, zero_for_one, is_base_input)))
                    }
                },
            },
        }
    }
}

/// The pool after a successful swap: price, tick and liquidity from the
/// loop; the input side's fee growth, protocol and fund fees updated;
/// rewards accrued; everything else as before.
pub open spec fn spec_pool_after_swap(old_p: PoolState, new_p: PoolState, s: SwapState, pf: u64, ff: u64, zero_for_one: bool, now: u64) -> bool {
    &&& new_p == (PoolState {
        sqrt_price_x64: s.sqrt_price_x64,
        tick_current: s.tick_current,
        liquidity: s.liquidity,
        fee_growth_global_0_x64: if zero_for_one { s.fee_growth_global_input_x64 } else { old_p.fee_growth_global_0_x64 },
        fee_growth_global_1_x64: if zero_for_one { old_p.fee_growth_global_1_x64 } else { s.fee_growth_global_input_x64 },
        protocol_fees_token_0: if zero_for_one { pf } else { old_p.protocol_fees_token_0 },
        protocol_fees_token_1: if zero_for_one { old_p.protocol_fees_token_1 } else { pf },
        fund_fees_token_0: if zero_for_one { ff } else { old_p.fund_fees_token_0 },
        fund_fees_token_1: if zero_for_one { old_p.fund_fees_token_1 } else { ff },
        reward_infos: new_p.reward_infos,
        ..old_p
    })
    &&& forall|i: int| 0 <= i < 3 ==> #[trigger] new_p.reward_infos[i] == spec_reward_update(old_p.reward_infos[i], now, old_p.liquidity)
}

/// Whether a price lies on the limit's side: at or above it for a
/// zero-for-one swap, at or below it otherwise.
pub open spec fn spec_within_limit(price: u128, limit: u128, zero_for_one: bool) -> bool {
    if zero_for_one { limit <= price } else { price <= limit }
}

/// A step ends at a price within the limit.
proof fn lemma_step_within_limit(p: SwapParams, entries: Seq<TickArrayState>, s: SwapState, ticks: Seq<Seq<TickState>>, current: int, head: int)
    ensures
        spec_swap_step(p, entries, s, ticks, current, head) matches Ok((s2, _t, _c, _h))
            ==> spec_within_limit(s2.sqrt_price_x64, p.sqrt_price_limit_x64, p.zero_for_one),
{
    reveal(spec_swap_step);
}

/// The loop keeps the price within the limit.
proof fn lemma_run_within_limit(p: SwapParams, entries: Seq<TickArrayState>, s: SwapState, ticks: Seq<Seq<TickState>>, current: int, head: int, fuel: nat)
    requires
        spec_within_limit(s.sqrt_price_x64, p.sqrt_price_limit_x64, p.zero_for_one),
    ensures
        spec_swap_run(p, entries, s, ticks, current, head, fuel) matches Ok((s2, _t, _c, _h))
            ==> spec_within_limit(s2.sqrt_price_x64, p.sqrt_price_limit_x64, p.zero_for_one),
    decreases fuel,
{
    if s.amount_specified_remaining != 0 && s.sqrt_price_x64 != p.sqrt_price_limit_x64 && fuel > 0 {
        lemma_step_within_limit(p, entries, s, ticks, current, head);
        match spec_swap_step(p, entries, s, ticks, current, head) {
            Err(_) => {},
            Ok((s2, t2, c2, h2)) => {
                lemma_run_within_limit(p, entries, s2, t2, c2, h2, (fuel - 1) as nat);
            },
        }
    }
}

/// A swap never takes the price past its limit: after a successful swap
/// the pool's price lies at or above the limit for a zero-for-one swap, at
/// or below it otherwise.
pub proof fn lemma_swap_respects_price_limit(
    pool: PoolState,
    path: TickArrayPath,
    config: AmmConfig,
    obs: ObservationState,
    amount_specified: u64,
    limit: u128,
    zero_for_one: bool,
    is_base_input: bool,
    now: u64,
)
    ensures
        spec_swap_checked(pool, path, config, obs, amount_specified, limit, zero_for_one, is_base_input, now)
            matches Ok((s, _t, _h, _pf, _ff, _res)) ==> spec_within_limit(s.sqrt_price_x64, limit, zero_for_one),
{
    let entries = path.entries();
    let head = path.head();
    if spec_swap_inputs_ok(pool, path, config, obs, now) && amount_specified != 0 && spec_limit_ok(pool.sqrt_price_x64, limit, zero_for_one) {
        let p = spec_swap_params(pool, config, limit, zero_for_one, is_base_input, now);
        let s0 = SwapState {
            sqrt_price_x64: pool.sqrt_price_x64,
            liquidity: pool.liquidity,
            fee_growth_global_input_x64: p.fee_growth_global_x64_at_start,
            protocol_fee_input: 0,
            fund_fee_input: 0,
            amount_specified_remaining: amount_specified,
            amount_calculated: 0,
            tick_current: pool.tick_current,
        };
        match spec_first_array(entries, head, pool.tick_current, pool.tick_spacing) {
            None => {},
            Some((c, h)) => {
                lemma_run_within_limit(p, entries, s0, ticks_of(entries), c, h, MAX_SWAP_STEPS as nat);
            },
        }
    }
}

/// The loop stops only with the specified amount used up or the price at
/// its limit.
proof fn lemma_run_stops_at_amount_or_limit(p: SwapParams, entries: Seq<TickArrayState>, s: SwapState, ticks: Seq<Seq<TickState>>, current: int, head: int, fuel: nat)
    ensures
        spec_swap_run(p, entries, s, ticks, current, head, fuel) matches Ok((s2, _t, _c, _h))
            ==> s2.amount_specified_remaining == 0 || s2.sqrt_price_x64 == p.sqrt_price_limit_x64,
    decreases fuel,
{
    if s.amount_specified_remaining != 0 && s.sqrt_price_x64 != p.sqrt_price_limit_x64 && fuel > 0 {
        match spec_swap_step(p, entries, s, ticks, current, head) {
            Err(_) => {},
            Ok((s2, t2, c2, h2)) => {
                lemma_run_stops_at_amount_or_limit(p, entries, s2, t2, c2, h2, (fuel - 1) as nat);
            },
        }
    }
}

/// The amount of the specified token that a swap reports: the input for an
/// exact-input swap, the output otherwise.
pub open spec fn spec_specified_side(res: SwapInternalResult, zero_for_one: bool, is_base_input: bool) -> u64 {
    if is_base_input == zero_for_one { res.amount_0 } else { res.amount_1 }
}

/// A successful swap uses no more of the specified token than was
/// specified, and all of it unless the price stopped at the limit.
pub proof fn lemma_swap_uses_specified_amount(
    pool: PoolState,
    path: TickArrayPath,
    config: AmmConfig,
    obs: ObservationState,
    amount_specified: u64,
    limit: u128,
    zero_for_one: bool,
    is_base_input: bool,
    now: u64,
)
    ensures
        spec_swap_checked(pool, path, config, obs, amount_specified, limit, zero_for_one, is_base_input, now)
            matches Ok((s, _t, _h, _pf, _ff, res)) ==> {
                &&& spec_specified_side(res, zero_for_one, is_base_input) <= amount_specified
                &&& (spec_specified_side(res, zero_for_one, is_base_input) == amount_specified || s.sqrt_price_x64 == limit)
            },
{
    let entries = path.entries();
    let head = path.head();
    if spec_swap_inputs_ok(pool, path, config, obs, now) && amount_specified != 0 && spec_limit_ok(pool.sqrt_price_x64, limit, zero_for_one) {
        let p = spec_swap_params(pool, config, limit, zero_for_one, is_base_input, now);
        let s0 = SwapState {
            sqrt_price_x64: pool.sqrt_price_x64,
            liquidity: pool.liquidity,
            fee_growth_global_input_x64: p.fee_growth_global_x64_at_start,
            protocol_fee_input: 0,
            fund_fee_input: 0,
            amount_specified_remaining: amount_specified,
            amount_calculated: 0,
            tick_current: pool.tick_current,
        };
        match spec_first_array(entries, head, pool.tick_current, pool.tick_spacing) {
            None => {},
            Some((c, h)) => {
                lemma_run_stops_at_amount_or_limit(p, entries, s0, ticks_of(entries), c, h, MAX_SWAP_STEPS as nat);
            },
        }
    }
}

/// Crossing a tick changes the active liquidity by the tick's net liquidity
/// in the direction of travel: going down (selling token 0) it subtracts the
/// tick's `liquidity_net`, going up it adds it. The crossed tick keeps its
/// net liquidity.
pub proof fn lemma_cross_tick_liquidity(
    start: i32,
    ticks: Seq<TickState>,
    tick_index: i32,
    tick_spacing: u16,
    liquidity: u128,
    fee_growth_global_input_x64: u128,
    zero_for_one: bool,
    fee_growth_other: u128,
    rewards: [u128; 3],
)
    requires
        ticks.len() == 60,
        forall|j: int| 0 <= j < 60 ==> (#[trigger] ticks[j]).liquidity_net != i128::MIN,
    ensures
        spec_cross_tick(start, ticks, tick_index, tick_spacing, liquidity, fee_growth_global_input_x64, zero_for_one, fee_growth_other, rewards)
            matches Ok((t2, l)) ==> {
                let slot = spec_cross_slot(start, tick_index, tick_spacing);
                let net = ticks[slot].liquidity_net as int;
                &&& 0 <= slot < 60
                &&& l == liquidity + (if zero_for_one { -net } else { net })
                &&& t2.len() == 60
                &&& t2[slot].liquidity_net == net
                &&& forall|j: int| 0 <= j < 60 ==> (#[trigger] t2[j]).liquidity_net == ticks[j].liquidity_net
            },
{
}

/// `(g - ((g - x) mod m)) mod m == x` for `x` in `[0, m)`.
proof fn lemma_flip_twice(g: int, x: int, m: int)
    requires
        m > 0,
        0 <= x < m,
    ensures
        (g - (g - x) % m) % m == x,
{
    vstd::arithmetic::div_mod::lemma_fundamental_div_mod(g - x, m);
    let q = (g - x) / m;
    assert(g - (g - x) % m == m * q + x);
    vstd::arithmetic::div_mod::lemma_mod_multiples_vanish(q, x, m);
    vstd::arithmetic::div_mod::lemma_small_mod(x as nat, m as nat);
}

/// Crossing flips a tick's outside growths against the global growths:
/// crossing it a second time with the same global growths gives back every
/// outside fee and reward growth it had, and crossing never changes its
/// liquidity.
pub proof fn lemma_crossed_tick_flips_back(
    t: TickState,
    fee_growth_global_input_x64: u128,
    zero_for_one: bool,
    fee_growth_other: u128,
    rewards: [u128; 3],
)
    ensures
        spec_crossed_tick(
            spec_crossed_tick(t, fee_growth_global_input_x64, zero_for_one, fee_growth_other, rewards),
            fee_growth_global_input_x64, zero_for_one, fee_growth_other, rewards,
        ) == t,
        spec_crossed_tick(t, fee_growth_global_input_x64, zero_for_one, fee_growth_other, rewards).liquidity_net == t.liquidity_net,
        spec_crossed_tick(t, fee_growth_global_input_x64, zero_for_one, fee_growth_other, rewards).liquidity_gross == t.liquidity_gross,
{
    let m = b128();
    let (g0, g1) = if zero_for_one {
        (fee_growth_global_input_x64, fee_growth_other)
    } else {
        (fee_growth_other, fee_growth_global_input_x64)
    };
    lemma_flip_twice(g0 as int, t.fee_growth_outside_0_x64 as int, m);
    lemma_flip_twice(g1 as int, t.fee_growth_outside_1_x64 as int, m);
    lemma_flip_twice(rewards[0] as int, t.reward_growths_outside_x64[0] as int, m);
    lemma_flip_twice(rewards[1] as int, t.reward_growths_outside_x64[1] as int, m);
    lemma_flip_twice(rewards[2] as int, t.reward_growths_outside_x64[2] as int, m);
    let once = spec_crossed_tick(t, fee_growth_global_input_x64, zero_for_one, fee_growth_other, rewards);
    let twice = spec_crossed_tick(once, fee_growth_global_input_x64, zero_for_one, fee_growth_other, rewards);
    assert(twice.reward_growths_outside_x64 =~= t.reward_growths_outside_x64);
}

/// Crossing a tick up and then back down gives the active liquidity back.
pub proof fn lemma_cross_up_then_down_restores_liquidity(
    start: i32,
    ticks: Seq<TickState>,
    tick_index: i32,
    tick_spacing: u16,
    liquidity: u128,
    growth_up: u128,
    other_up: u128,
    rewards_up: [u128; 3],
    growth_down: u128,
    other_down: u128,
    rewards_down: [u128; 3],
)
    requires
        ticks.len() == 60,
        forall|j: int| 0 <= j < 60 ==> (#[trigger] ticks[j]).liquidity_net != i128::MIN,
    ensures
        spec_cross_tick(start, ticks, tick_index, tick_spacing, liquidity, growth_up, false, other_up, rewards_up)
            matches Ok((t1, l1)) ==> (
            spec_cross_tick(start, t1, tick_index, tick_spacing, l1, growth_down, true, other_down, rewards_down)
                matches Ok((_t2, l2)) ==> l2 == liquidity),
{
    lemma_cross_tick_liquidity(start, ticks, tick_index, tick_spacing, liquidity, growth_up, false, other_up, rewards_up);
    match spec_cross_tick(start, ticks, tick_index, tick_spacing, liquidity, growth_up, false, other_up, rewards_up) {
        Err(_) => {},
        Ok((t1, l1)) => {
            lemma_cross_tick_liquidity(start, t1, tick_index, tick_spacing, l1, growth_down, true, other_down, rewards_down);
        },
    }
}

/// A step that does not charge its fee on the input leaves the input
/// token's protocol fee, fund fee and fee growth as they were.
proof fn lemma_step_keeps_input_fees(p: SwapParams, entries: Seq<TickArrayState>, s: SwapState, ticks: Seq<Seq<TickState>>, current: int, head: int)
    requires
        !p.is_fee_on_input,
    ensures
        spec_swap_step(p, entries, s, ticks, current, head) matches Ok((s2, _t, _c, _h)) ==> {
            &&& s2.protocol_fee_input == s.protocol_fee_input
            &&& s2.fund_fee_input == s.fund_fee_input
            &&& s2.fee_growth_global_input_x64 == s.fee_growth_global_input_x64
        },
{
    reveal(spec_swap_step);
}

/// The loop keeps the input token's fees when no step charges the fee on
/// the input.
proof fn lemma_run_keeps_input_fees(p: SwapParams, entries: Seq<TickArrayState>, s: SwapState, ticks: Seq<Seq<TickState>>, current: int, head: int, fuel: nat)
    requires
        !p.is_fee_on_input,
    ensures
        spec_swap_run(p, entries, s, ticks, current, head, fuel) matches Ok((s2, _t, _c, _h)) ==> {
            &&& s2.protocol_fee_input == s.protocol_fee_input
            &&& s2.fund_fee_input == s.fund_fee_input
            &&& s2.fee_growth_global_input_x64 == s.fee_growth_global_input_x64
        },
    decreases fuel,
{
    if s.amount_specified_remaining != 0 && s.sqrt_price_x64 != p.sqrt_price_limit_x64 && fuel > 0 {
        lemma_step_keeps_input_fees(p, entries, s, ticks, current, head);
        match spec_swap_step(p, entries, s, ticks, current, head) {
            Err(_) => {},
            Ok((s2, t2, c2, h2)) => {
                lemma_run_keeps_input_fees(p, entries, s2, t2, c2, h2, (fuel - 1) as nat);
            },
        }
    }
}

/// A swap charges its fee on the input exactly when the pool's fee mode
/// takes fees from the input, or names the input token (token 0 when
/// selling token 0, token 1 otherwise).
pub proof fn lemma_fee_on_input_follows_mode(pool: PoolState, config: AmmConfig, limit: u128, zero_for_one: bool, is_base_input: bool, now: u64)
    ensures
        spec_swap_params(pool, config, limit, zero_for_one, is_base_input, now).is_fee_on_input <==> {
            ||| spec_collect_fee_on(pool.fee_on) == CollectFeeOn::FromInput
            ||| (spec_collect_fee_on(pool.fee_on) == CollectFeeOn::Token0Only && zero_for_one)
            ||| (spec_collect_fee_on(pool.fee_on) == CollectFeeOn::Token1Only && !zero_for_one)
        },
{
}

/// The swap fee is collected in the token the pool's fee mode names: a pool
/// that takes its fee in token 0 only never accrues a token-1 protocol fee,
/// fund fee or fee growth in a swap, and one that takes it in token 1 only
/// never accrues any of token 0.
pub proof fn lemma_fee_collected_in_mode_token(
    pool: PoolState,
    new_pool: PoolState,
    path: TickArrayPath,
    config: AmmConfig,
    obs: ObservationState,
    amount_specified: u64,
    limit: u128,
    zero_for_one: bool,
    is_base_input: bool,
    now: u64,
)
    ensures
        spec_swap_checked(pool, path, config, obs, amount_specified, limit, zero_for_one, is_base_input, now)
            matches Ok((s, _t, _h, pf, ff, _res)) ==> (
            spec_pool_after_swap(pool, new_pool, s, pf, ff, zero_for_one, now) ==> {
                &&& spec_collect_fee_on(pool.fee_on) == CollectFeeOn::Token0Only ==> {
                    &&& new_pool.protocol_fees_token_1 == pool.protocol_fees_token_1
                    &&& new_pool.fund_fees_token_1 == pool.fund_fees_token_1
                    &&& new_pool.fee_growth_global_1_x64 == pool.fee_growth_global_1_x64
                }
                &&& spec_collect_fee_on(pool.fee_on) == CollectFeeOn::Token1Only ==> {
                    &&& new_pool.protocol_fees_token_0 == pool.protocol_fees_token_0
                    &&& new_pool.fund_fees_token_0 == pool.fund_fees_token_0
                    &&& new_pool.fee_growth_global_0_x64 == pool.fee_growth_global_0_x64
                }
            }),
{
    let entries = path.entries();
    let head = path.head();
    let p = spec_swap_params(pool, config, limit, zero_for_one, is_base_input, now);
    lemma_fee_on_input_follows_mode(pool, config, limit, zero_for_one, is_base_input, now);
    if spec_swap_inputs_ok(pool, path, config, obs, now) && amount_specified != 0 && spec_limit_ok(pool.sqrt_price_x64, limit, zero_for_one)
        && !p.is_fee_on_input {
        let s0 = SwapState {
            sqrt_price_x64: pool.sqrt_price_x64,
            liquidity: pool.liquidity,
            fee_growth_global_input_x64: p.fee_growth_global_x64_at_start,
            protocol_fee_input: 0,
            fund_fee_input: 0,
            amount_specified_remaining: amount_specified,
            amount_calculated: 0,
            tick_current: pool.tick_current,
        };
        match spec_first_array(entries, head, pool.tick_current, pool.tick_spacing) {
            None => {},
            Some((c, h)) => {
                lemma_run_keeps_input_fees(p, entries, s0, ticks_of(entries), c, h, MAX_SWAP_STEPS as nat);
            },
        }
    }
}

/// The oracle's tick cumulative accumulates. When a swap records a new
/// observation (in the next slot of the ring, stamped with the current
/// time, later than the last one), its tick cumulative is the last
/// observation's plus the tick times the seconds elapsed since it, modulo
/// 2^64; so the difference of two consecutive observations over their time
/// gap is the tick held in between. Otherwise nothing changes.
pub proof fn lemma_observation_accumulates(s: ObservationState, n: ObservationState, now: u32, tick: i32)
    requires
        spec_observation_updated(s, n, now, tick),
        s.initialized != 0,
        s.observation_index < OBSERVATION_NUM,
    ensures
        n.observation_index == s.observation_index ==> n == s,
        n.observation_index != s.observation_index ==> {
            let prev = s.observations[s.observation_index as int];
            let cur = n.observations[n.observation_index as int];
            &&& n.observation_index == (s.observation_index + 1) % 100
            &&& cur.block_timestamp == now
            &&& now > prev.block_timestamp
            &&& (cur.tick_cumulative - prev.tick_cumulative - tick * (now - prev.block_timestamp)) % 0x1_0000_0000_0000_0000int == 0
        },
{
    let idx = s.observation_index as int;
    let last = s.observations[idx];
    if now >= last.block_timestamp && now - last.block_timestamp >= OBSERVATION_UPDATE_DURATION_DEFAULT {
        let delta: int = now - last.block_timestamp;
        let next_idx: int = if idx == 99 { 0 } else { idx + 1 };
        assert(-0x8000_0000 * 0xffff_ffff <= tick * delta <= 0x7fff_ffff * 0xffff_ffff) by (nonlinear_arith)
            requires -0x8000_0000 <= tick <= 0x7fff_ffff, 0 <= delta <= 0xffff_ffff;
        let x = tick * delta;
        assert((x as i64) as int == x);
        let cum = vstd::wrapping::i64_specs::wrapping_add(last.tick_cumulative, x as i64);
        assert(n.observations@[next_idx].tick_cumulative == cum);
        let diff = cum - last.tick_cumulative - x;
        assert(diff == 0 || diff == 0x1_0000_0000_0000_0000int || diff == -0x1_0000_0000_0000_0000int);
        assert(diff % 0x1_0000_0000_0000_0000int == 0);
    }
}

/// How many of the first `n` slots of an array starting at `start` lie past
/// `tick` in the swap direction: below it when selling token 0, above it
/// otherwise.
pub open spec fn slots_past(start: int, tick: int, tick_spacing: int, zero_for_one: bool, n: nat) -> nat
    decreases n,
{
    if n == 0 {
        0
    } else {
        let pos = start + (n - 1) * tick_spacing;
        let past = if zero_for_one { pos < tick } else { pos > tick };
        slots_past(start, tick, tick_spacing, zero_for_one, (n - 1) as nat) + (if past { 1nat } else { 0nat })
    }
}

/// At most `n` of `n` slots lie past a tick.
proof fn lemma_slots_past_bound(start: int, tick: int, tick_spacing: int, zero_for_one: bool, n: nat)
    ensures
        slots_past(start, tick, tick_spacing, zero_for_one, n) <= n,
    decreases n,
{
    if n > 0 {
        lemma_slots_past_bound(start, tick, tick_spacing, zero_for_one, (n - 1) as nat);
    }
}

/// Moving the tick to a slot's own side of it leaves fewer slots past it:
/// with `t2` no further than `t1` in the swap direction and slot `k`
/// past `t1` but not past `t2`, fewer slots lie past `t2`.
proof fn lemma_slots_past_shrink(start: int, t1: int, t2: int, tick_spacing: int, zero_for_one: bool, n: nat, k: int)
    requires
        0 <= k < n,
        zero_for_one ==> t2 <= t1 && start + k * tick_spacing < t1 && start + k * tick_spacing >= t2,
        !zero_for_one ==> t2 >= t1 && start + k * tick_spacing > t1 && start + k * tick_spacing <= t2,
    ensures
        slots_past(start, t2, tick_spacing, zero_for_one, n) < slots_past(start, t1, tick_spacing, zero_for_one, n),
    decreases n,
{
    if n - 1 == k {
        lemma_slots_past_monotone(start, t1, t2, tick_spacing, zero_for_one, (n - 1) as nat);
    } else {
        lemma_slots_past_shrink(start, t1, t2, tick_spacing, zero_for_one, (n - 1) as nat, k);
    }
}

/// Slots past `t2` are past `t1` too, where `t2` is no further than `t1`.
proof fn lemma_slots_past_monotone(start: int, t1: int, t2: int, tick_spacing: int, zero_for_one: bool, n: nat)
    requires
        zero_for_one ==> t2 <= t1,
        !zero_for_one ==> t2 >= t1,
    ensures
        slots_past(start, t2, tick_spacing, zero_for_one, n) <= slots_past(start, t1, tick_spacing, zero_for_one, n),
    decreases n,
{
    if n > 0 {
        lemma_slots_past_monotone(start, t1, t2, tick_spacing, zero_for_one, (n - 1) as nat);
    }
}

/// A tick found by scanning down is a slot's tick below the current one.
proof fn lemma_search_down_slot(start: i32, ticks: Seq<TickState>, current: i32, tick_spacing: u16, idx: int)
    requires
        tick_spacing > 0,
        -0x2000_0000 <= start,
        start + 60 * tick_spacing <= 0x2000_0000,
    ensures
        search_down(start, ticks, current, tick_spacing, idx) matches Some(t) ==> exists|k: int|
            0 <= k < 60 && t == start + k * tick_spacing && #[trigger] (k * tick_spacing) == t - start && t < current,
    decreases idx + 1,
{
    if 0 <= idx < 60 {
        assert(0 <= idx * tick_spacing <= 59 * tick_spacing) by (nonlinear_arith) requires 0 <= idx < 60, tick_spacing > 0;
        lemma_search_down_slot(start, ticks, current, tick_spacing, idx - 1);
    }
}

/// A tick found by scanning up is a slot's tick above the current one.
proof fn lemma_search_up_slot(start: i32, ticks: Seq<TickState>, current: i32, tick_spacing: u16, idx: int)
    requires
        tick_spacing > 0,
        -0x2000_0000 <= start,
        start + 60 * tick_spacing <= 0x2000_0000,
    ensures
        search_up(start, ticks, current, tick_spacing, idx) matches Some(t) ==> exists|k: int|
            0 <= k < 60 && t == start + k * tick_spacing && #[trigger] (k * tick_spacing) == t - start && t > current,
    decreases 60 - idx,
{
    if 0 <= idx < 60 {
        assert(0 <= idx * tick_spacing <= 59 * tick_spacing) by (nonlinear_arith) requires 0 <= idx < 60, tick_spacing > 0;
        lemma_search_up_slot(start, ticks, current, tick_spacing, idx + 1);
    }
}

/// What the loop has left to do, which every step that does not end it
/// lowers: the arrays not yet taken (each worth more than a whole array of
/// slots) and the slots of the current array past the current tick.
pub open spec fn loop_measure(p: SwapParams, entries: Seq<TickArrayState>, s: SwapState, current: int, head: int) -> int {
    (entries.len() - head) * 61 + slots_past(entries[current].start_tick_index as int, s.tick_current as int, p.tick_spacing as int, p.zero_for_one, 60)
}

/// The parts of the loop's requirements that no step changes.
pub open spec fn loop_fixed_ok(p: SwapParams, entries: Seq<TickArrayState>) -> bool {
    &&& p.tick_spacing > 0
    &&& p.trade_fee_rate <= FEE_RATE_DENOMINATOR_VALUE
    &&& forall|i: int| 0 <= i < entries.len() ==> spec_array_in_box(#[trigger] entries[i], p.tick_spacing)
}

/// A step keeps the array positions in order, and a step after which the
/// loop goes on lowers the measure: such a step crossed a tick of the
/// current array or moved to the next array; any other step used up the
/// amount or reached the price limit.
proof fn lemma_step_progress(p: SwapParams, entries: Seq<TickArrayState>, s: SwapState, ticks: Seq<Seq<TickState>>, current: int, head: int)
    requires
        loop_fixed_ok(p, entries),
        0 <= current < head <= entries.len(),
    ensures
        spec_swap_step(p, entries, s, ticks, current, head) matches Ok((s2, _t2, c2, h2)) ==> {
            &&& 0 <= c2 < h2 <= entries.len()
            &&& (s2.amount_specified_remaining != 0 && s2.sqrt_price_x64 != p.sqrt_price_limit_x64)
                ==> loop_measure(p, entries, s2, c2, h2) < loop_measure(p, entries, s, current, head)
        },
{
    reveal(spec_swap_step);
    let ts = p.tick_spacing;
    let zfo = p.zero_for_one;
    let st = entries[current].start_tick_index;
    let q = trunc_div(s.tick_current - st, ts as int);
    assert(spec_array_in_box(entries[current], ts));
    lemma_search_down_slot(st, ticks[current], s.tick_current, ts, if q >= 60 { 59 } else { q });
    lemma_search_up_slot(st, ticks[current], s.tick_current, ts, if q + 1 < 0 { 0 } else { q + 1 });
    lemma_slots_past_bound(st as int, s.tick_current as int, ts as int, zfo, 60);
    match spec_next_tick(p, entries, s, ticks, current, head) {
        Err(_) => {},
        Ok((c, h, next_tick)) => {
            match spec_get_sqrt_price_at_tick(next_tick) {
                Err(_) => {},
                Ok(next_price) => {
                    let target = spec_step_target(p, next_price);
                    lemma_compute_swap_within_remaining(s.sqrt_price_x64, target, s.liquidity, s.amount_specified_remaining,
                        p.trade_fee_rate, p.is_base_input, zfo, p.is_fee_on_input);
                    if h == head + 1 {
                        assert(spec_array_in_box(entries[h - 1], ts));
                    }
                    match spec_swap_step(p, entries, s, ticks, current, head) {
                        Err(_) => {},
                        Ok((s2, t2, c2, h2)) => {
                            lemma_slots_past_bound(entries[c2].start_tick_index as int, s2.tick_current as int, ts as int, zfo, 60);
                            if c2 == current && h2 == head && s2.amount_specified_remaining != 0 && s2.sqrt_price_x64 != p.sqrt_price_limit_x64 {
                                let t = next_tick as int;
                                let k = choose|k: int| 0 <= k < 60 && t == st + k * ts && #[trigger] (k * ts) == t - st
                                    && (if zfo { t < s.tick_current } else { t > s.tick_current });
                                let t2i: int = if zfo { t - 1 } else { t };
                                assert(s2.tick_current == t2i);
                                lemma_slots_past_shrink(st as int, s.tick_current as int, t2i, ts as int, zfo, 60, k);
                            }
                        },
                    }
                },
            }
        },
    }
}

/// With fuel beyond the measure, the loop's outcome does not depend on how
/// much fuel it has.
proof fn lemma_run_fuel(p: SwapParams, entries: Seq<TickArrayState>, s: SwapState, ticks: Seq<Seq<TickState>>, current: int, head: int, f1: nat, f2: nat)
    requires
        loop_fixed_ok(p, entries),
        0 <= current < head <= entries.len(),
        f1 > loop_measure(p, entries, s, current, head),
        f2 > loop_measure(p, entries, s, current, head),
    ensures
        spec_swap_run(p, entries, s, ticks, current, head, f1) == spec_swap_run(p, entries, s, ticks, current, head, f2),
    decreases f1,
{
    lemma_slots_past_bound(entries[current].start_tick_index as int, s.tick_current as int, p.tick_spacing as int, p.zero_for_one, 60);
    if s.amount_specified_remaining != 0 && s.sqrt_price_x64 != p.sqrt_price_limit_x64 {
        lemma_step_progress(p, entries, s, ticks, current, head);
        match spec_swap_step(p, entries, s, ticks, current, head) {
            Err(_) => {},
            Ok((s2, t2, c2, h2)) => {
                if s2.amount_specified_remaining != 0 && s2.sqrt_price_x64 != p.sqrt_price_limit_x64 {
                    lemma_run_fuel(p, entries, s2, t2, c2, h2, (f1 - 1) as nat, (f2 - 1) as nat);
                }
            },
        }
    }
}

/// The swap loop always stops on its own, within far fewer steps than its
/// cap: given more steps than `MAX_SWAP_STEPS`, it gives the same outcome,
/// so the cap never decides a swap. (From a path of at most
/// `MAX_TICK_ARRAYS_PER_SWAP` arrays still to take, every step that does
/// not end the loop crosses a tick of the current array or takes the next
/// array.)
pub proof fn lemma_swap_loop_stops_before_cap(p: SwapParams, entries: Seq<TickArrayState>, s: SwapState, ticks: Seq<Seq<TickState>>, current: int, head: int, fuel: nat)
    requires
        loop_fixed_ok(p, entries),
        0 <= current < head <= entries.len(),
        entries.len() - head <= MAX_TICK_ARRAYS_PER_SWAP,
        fuel >= MAX_SWAP_STEPS,
    ensures
        spec_swap_run(p, entries, s, ticks, current, head, fuel) == spec_swap_run(p, entries, s, ticks, current, head, MAX_SWAP_STEPS as nat),
{
    lemma_slots_past_bound(entries[current].start_tick_index as int, s.tick_current as int, p.tick_spacing as int, p.zero_for_one, 60);
    assert(loop_measure(p, entries, s, current, head) <= 8 * 61 + 60);
    lemma_run_fuel(p, entries, s, ticks, current, head, fuel, MAX_SWAP_STEPS as nat);
}

/// The arrays at positions `from` up to (not including) `upto` come in the
/// swap direction: each lies wholly below every earlier one when selling
/// token 0, wholly above it otherwise.
pub open spec fn path_in_direction(entries: Seq<TickArrayState>, tick_spacing: u16, zero_for_one: bool, from: int, upto: int) -> bool {
    forall|i: int, j: int| #![trigger entries[i], entries[j]] from <= i < j < upto && j < entries.len() ==> if zero_for_one {
        entries[j].start_tick_index + spec_tick_count(tick_spacing) <= entries[i].start_tick_index
    } else {
        entries[i].start_tick_index + spec_tick_count(tick_spacing) <= entries[j].start_tick_index
    }
}

/// The current tick agrees with the sqrt price: the price lies between the
/// tick's sqrt price and the next tick's (reaching the latter just after
/// the price fell onto a tick it crossed).
pub open spec fn spec_tick_agrees(tick: i32, price: u128) -> bool {
    &&& MIN_TICK <= tick < MAX_TICK
    &&& spec_sqrt_price_at_tick(tick) <= price <= spec_sqrt_price_at_tick((tick + 1) as i32)
}

/// What each step of a swap along a path in the swap direction keeps: the
/// tick agrees with the price, the price lies between the limit and the
/// starting price, and the tick has not left the current array against the
/// swap direction.
pub open spec fn ordered_walk_ok(p: SwapParams, entries: Seq<TickArrayState>, s: SwapState, current: int) -> bool {
    &&& spec_tick_agrees(s.tick_current, s.sqrt_price_x64)
    &&& if p.zero_for_one {
        &&& MIN_SQRT_PRICE_X64 < p.sqrt_price_limit_x64
        &&& p.sqrt_price_limit_x64 <= s.sqrt_price_x64 <= p.sqrt_price_x64_at_start
        &&& s.tick_current >= entries[current].start_tick_index - 1
    } else {
        &&& p.sqrt_price_limit_x64 < MAX_SQRT_PRICE_X64
        &&& p.sqrt_price_x64_at_start <= s.sqrt_price_x64 <= p.sqrt_price_limit_x64
        &&& s.tick_current < entries[current].start_tick_index + spec_tick_count(p.tick_spacing)
    }
}

/// A step keeps the array positions in order and takes at most the next
/// array.
proof fn lemma_step_head_grows(p: SwapParams, entries: Seq<TickArrayState>, s: SwapState, ticks: Seq<Seq<TickState>>, current: int, head: int)
    requires
        loop_fixed_ok(p, entries),
        0 <= current < head <= entries.len(),
    ensures
        spec_swap_step(p, entries, s, ticks, current, head) matches Ok((_s2, _t2, c2, h2))
            ==> 0 <= c2 < h2 <= entries.len() && head <= h2 <= head + 1 && (c2 == current || c2 == head),
{
    reveal(spec_swap_step);
    lemma_next_tick_in_span(p, entries, s, ticks, current, head);
}

/// A step keeps [`ordered_walk_ok`] when the arrays it walks (up to the
/// position `hmax`, past the one it may take) come in the swap direction:
/// the tick it heads for lies past the current tick, so its target lies
/// between the price and the limit, and the tick it sets agrees with the
/// price it reaches.
proof fn lemma_step_ordered(p: SwapParams, entries: Seq<TickArrayState>, s: SwapState, ticks: Seq<Seq<TickState>>, current: int, head: int, from: int, hmax: int)
    requires
        loop_fixed_ok(p, entries),
        from <= current,
        0 <= current < head <= entries.len(),
        path_in_direction(entries, p.tick_spacing, p.zero_for_one, from, hmax),
        ordered_walk_ok(p, entries, s, current),
        s.sqrt_price_x64 != p.sqrt_price_limit_x64,
    ensures
        spec_swap_step(p, entries, s, ticks, current, head) matches Ok((s2, _t2, c2, h2)) ==> (h2 <= hmax ==> {
            &&& from <= c2 < h2 <= entries.len()
            &&& ordered_walk_ok(p, entries, s2, c2)
        }),
{
    reveal(spec_swap_step);
    lemma_step_head_grows(p, entries, s, ticks, current, head);
    lemma_next_tick_in_span(p, entries, s, ticks, current, head);
    lemma_extreme_sqrt_prices();
    let ts = p.tick_spacing;
    let zfo = p.zero_for_one;
    let st = entries[current].start_tick_index;
    let q = trunc_div(s.tick_current - st, ts as int);
    assert(spec_array_in_box(entries[current], ts));
    lemma_search_down_slot(st, ticks[current], s.tick_current, ts, if q >= 60 { 59 } else { q });
    lemma_search_up_slot(st, ticks[current], s.tick_current, ts, if q + 1 < 0 { 0 } else { q + 1 });
    match spec_swap_step(p, entries, s, ticks, current, head) {
        Err(_) => {},
        Ok((s2, t2, c2, h2)) => {
            if h2 <= hmax {
                match spec_next_tick(p, entries, s, ticks, current, head) {
                    Err(_) => {},
                    Ok((c, h, t)) => {
                        assert(c2 == c && h2 == h);
                        // The tick headed for lies past the current tick.
                        if c == head {
                            assert(entries[current].start_tick_index == st);
                            assert(entries[head].start_tick_index == entries[c].start_tick_index);
                        }
                        assert(zfo ==> t <= s.tick_current);
                        assert(!zfo ==> t > s.tick_current);
                        match spec_get_sqrt_price_at_tick(t) {
                            Err(_) => {},
                            Ok(np) => {
                                assert(MIN_TICK <= t <= MAX_TICK);
                                lemma_sqrt_price_at_tick_in_range(t);
                                assert(np == spec_sqrt_price_at_tick(t));
                                if zfo {
                                    lemma_sqrt_price_monotone(t, s.tick_current);
                                } else {
                                    lemma_sqrt_price_monotone((s.tick_current + 1) as i32, t);
                                }
                                let target = spec_step_target(p, np);
                                lemma_compute_swap_price_between(s.sqrt_price_x64, target, s.liquidity, s.amount_specified_remaining,
                                    p.trade_fee_rate, p.is_base_input, zfo, p.is_fee_on_input);
                                let n = s2.sqrt_price_x64;
                                if n == np && n == target {
                                    if zfo {
                                        assert(t != MIN_TICK);
                                        lemma_sqrt_price_monotone((t - 1) as i32, t);
                                        assert(s2.tick_current == t - 1);
                                    } else {
                                        assert(t != MAX_TICK);
                                        lemma_sqrt_price_monotone(t, (t + 1) as i32);
                                        assert(s2.tick_current == t);
                                    }
                                } else if n != p.sqrt_price_x64_at_start {
                                    lemma_tick_at_sqrt_price_bounds(n);
                                    let nt = s2.tick_current;
                                    assert(spec_get_tick_at_sqrt_price(n) == Ok::<i32, ProgramError>(nt));
                                    if zfo {
                                        if nt < t {
                                            lemma_sqrt_price_monotone((nt + 1) as i32, t);
                                        }
                                    } else {
                                        if nt > t {
                                            lemma_sqrt_price_monotone(t, nt);
                                        }
                                    }
                                } else {
                                    assert(s2.tick_current == s.tick_current);
                                    if c == head {
                                        assert(entries[current].start_tick_index == st);
                                    }
                                }
                            },
                        }
                    },
                }
            }
        },
    }
}

/// The loop ends with the array position no lower than where it started,
/// and keeps [`ordered_walk_ok`] when the arrays it walked (up to the final
/// position) come in the swap direction.
proof fn lemma_run_ordered(p: SwapParams, entries: Seq<TickArrayState>, s: SwapState, ticks: Seq<Seq<TickState>>, current: int, head: int, fuel: nat, from: int)
    requires
        loop_fixed_ok(p, entries),
        0 <= current < head <= entries.len(),
    ensures
        spec_swap_run(p, entries, s, ticks, current, head, fuel) matches Ok((s2, _t, c2, h2)) ==> {
            &&& head <= h2
            &&& (from <= current && ordered_walk_ok(p, entries, s, current)
                && path_in_direction(entries, p.tick_spacing, p.zero_for_one, from, h2))
                ==> 0 <= c2 < entries.len() && ordered_walk_ok(p, entries, s2, c2)
        },
    decreases fuel,
{
    if s.amount_specified_remaining != 0 && s.sqrt_price_x64 != p.sqrt_price_limit_x64 && fuel > 0 {
        lemma_step_head_grows(p, entries, s, ticks, current, head);
        match spec_swap_step(p, entries, s, ticks, current, head) {
            Err(_) => {},
            Ok((s1, t1, c1, h1)) => {
                lemma_run_ordered(p, entries, s1, t1, c1, h1, (fuel - 1) as nat, from);
                match spec_swap_run(p, entries, s1, t1, c1, h1, (fuel - 1) as nat) {
                    Err(_) => {},
                    Ok((s2, _t, c2, h2)) => {
                        if from <= current && ordered_walk_ok(p, entries, s, current)
                            && path_in_direction(entries, p.tick_spacing, p.zero_for_one, from, h2) {
                            lemma_step_ordered(p, entries, s, ticks, current, head, from, h2);
                        }
                    },
                }
            },
        }
    }
}

/// Where the arrays a swap walks (from the one holding the current tick to
/// the last one it took) come in the swap direction, the swap moves the
/// price only from where it started toward the limit, and leaves the tick
/// agreeing with the price: after a successful swap selling token 0 the
/// price lies between the limit and the starting price (between the
/// starting price and the limit otherwise), and, the pool's tick agreeing
/// with its price before, the new tick agrees with the new price.
pub proof fn lemma_swap_price_moves_toward_limit(
    pool: PoolState,
    path: TickArrayPath,
    config: AmmConfig,
    obs: ObservationState,
    amount_specified: u64,
    limit: u128,
    zero_for_one: bool,
    is_base_input: bool,
    now: u64,
)
    requires
        spec_tick_agrees(pool.tick_current, pool.sqrt_price_x64),
    ensures
        spec_swap_checked(pool, path, config, obs, amount_specified, limit, zero_for_one, is_base_input, now)
            matches Ok((s, _t, h, _pf, _ff, _res)) ==> (
            spec_first_array(path.entries(), path.head(), pool.tick_current, pool.tick_spacing) matches Some((c, _n)) ==> (
            path_in_direction(path.entries(), pool.tick_spacing, zero_for_one, c, h) ==> {
                &&& if zero_for_one {
                    limit <= s.sqrt_price_x64 <= pool.sqrt_price_x64
                } else {
                    pool.sqrt_price_x64 <= s.sqrt_price_x64 <= limit
                }
                &&& spec_tick_agrees(s.tick_current, s.sqrt_price_x64)
            })),
{
    let entries = path.entries();
    let head = path.head();
    if spec_swap_inputs_ok(pool, path, config, obs, now) && amount_specified != 0 && spec_limit_ok(pool.sqrt_price_x64, limit, zero_for_one) {
        let p = spec_swap_params(pool, config, limit, zero_for_one, is_base_input, now);
        let s0 = SwapState {
            sqrt_price_x64: pool.sqrt_price_x64,
            liquidity: pool.liquidity,
            fee_growth_global_input_x64: p.fee_growth_global_x64_at_start,
            protocol_fee_input: 0,
            fund_fee_input: 0,
            amount_specified_remaining: amount_specified,
            amount_calculated: 0,
            tick_current: pool.tick_current,
        };
        lemma_first_array_bounds(entries, head, pool.tick_current, pool.tick_spacing);
        match spec_first_array(entries, head, pool.tick_current, pool.tick_spacing) {
            None => {},
            Some((c, h)) => {
                lemma_first_array_found(entries, head, pool.tick_current, pool.tick_spacing);
                assert(ordered_walk_ok(p, entries, s0, c));
                lemma_run_ordered(p, entries, s0, ticks_of(entries), c, h, MAX_SWAP_STEPS as nat, c);
            },
        }
    }
}

/// The inputs a swap is built for: a valid path whose arrays lie within the
/// tick box and have negatable net liquidities, a positive spacing, a fee
/// rate of at most 100%, a current tick within the box, reward accrual
/// within its widths, and a valid observation index. Outside them the swap
/// arithmetic would overflow, divide by zero or index out of range;
/// [`swap_internal`] refuses such inputs with an error.
///
/// The box (ticks within `±0x3fff_ffff`, array spans within `±2^29`) is a
/// bound this library sets so that the tick arithmetic of a swap stays
/// within `i32`; every valid pool state meets it, as valid ticks lie within
/// `±443636`.
pub open spec fn spec_swap_inputs_ok(pool: PoolState, path: TickArrayPath, config: AmmConfig, obs: ObservationState, now: u64) -> bool {
    &&& path.wf()
    &&& config.trade_fee_rate <= FEE_RATE_DENOMINATOR_VALUE
    &&& pool.tick_spacing > 0
    &&& tick_box(pool.tick_current as int)
    &&& spec_rewards_fit(pool, now)
    &&& obs.observation_index < OBSERVATION_NUM
    &&& forall|i: int| 0 <= i < path.entries().len() ==> spec_array_in_box(#[trigger] path.entries()[i], pool.tick_spacing)
    &&& forall|i: int| 0 <= i < path.entries().len() ==> spec_nets_negatable(#[trigger] path.entries()[i])
}


/// Whether a schedule can accrue to `now` within its widths.
pub fn reward_update_fits(info: &RewardInfo, block_timestamp: u64, liquidity: u128) -> (r: bool)
    ensures
        r == spec_reward_update_fits(*info, block_timestamp, liquidity),
{
    if !info.initialized() || block_timestamp <= info.open_time || liquidity == 0 {
        return true;
    }
    let latest_update_timestamp = if block_timestamp < info.end_time { block_timestamp } else { info.end_time };
    if latest_update_timestamp <= info.last_update_time {
        return true;
    }
    let time_delta = latest_update_timestamp - info.last_update_time;
    let reward_delta = match U128::from_u64(time_delta).mul_div_ceil(
        U128::from_u128(info.emissions_per_second_x64),
        U128::from_u128(Q64),
    ) {
        Some(v) => v,
        None => U128::zero(),
    };
    proof {
        lemma_limbs2_bounds(reward_delta.0);
    }
    if reward_delta.0[1] != 0 {
        return false;
    }
    let reward_delta_u64 = reward_delta.as_u64();
    let growth = match info.reward_total_emitted.checked_add(reward_delta_u64) {
        None => U256::from_u64(u64::MAX - info.reward_total_emitted).mul_div_floor(
            U256::from_u128(Q64),
            U256::from_u128(liquidity),
        ),
        Some(_) => U256::from_u64(time_delta).mul_div_floor(
            U256::from_u128(info.emissions_per_second_x64),
            U256::from_u128(liquidity),
        ),
    };
    proof {
        assert(((u64::MAX - info.reward_total_emitted) as int) * b64() >= 0) by (nonlinear_arith);
        assert((time_delta as int) * (info.emissions_per_second_x64 as int) >= 0) by (nonlinear_arith);
        assert(((u64::MAX - info.reward_total_emitted) as int) * b64() < b256()) by (nonlinear_arith)
            requires b256() == b128() * b128(), b64() < b128(), 0 <= u64::MAX - info.reward_total_emitted < b64();
        assert((time_delta as int) * (info.emissions_per_second_x64 as int) < b256()) by (nonlinear_arith)
            requires b256() == b128() * b128(), 0 <= time_delta < b128(), 0 <= info.emissions_per_second_x64 < b128();
        vstd::arithmetic::div_mod::lemma_div_is_ordered_by_denominator(((u64::MAX - info.reward_total_emitted) as int) * b64(), 1, liquidity as int);
        vstd::arithmetic::div_mod::lemma_div_is_ordered_by_denominator((time_delta as int) * (info.emissions_per_second_x64 as int), 1, liquidity as int);
    }
    match growth {
        Some(g) => {
            proof { lemma_limbs4_bounds(g.0); }
            g.0[2] == 0 && g.0[3] == 0
        },
        None => false,
    }
}

/// Whether every reward schedule of the pool can accrue to `block_timestamp`
/// within its widths.
pub fn rewards_fit(pool_state: &PoolState, block_timestamp: u64) -> (r: bool)
    ensures
        r == spec_rewards_fit(*pool_state, block_timestamp),
{
    let mut k: usize = 0;
    while k < REWARD_NUM
        invariant
            0 <= k <= 3,
            forall|j: int| 0 <= j < k ==> spec_reward_update_fits(#[trigger] pool_state.reward_infos[j], block_timestamp, pool_state.liquidity),
        decreases 3 - k,
    {
        if !reward_update_fits(&pool_state.reward_infos[k], block_timestamp, pool_state.liquidity) {
            return false;
        }
        k = k + 1;
    }
    true
}

/// Whether a swap's inputs are as [`spec_swap_inputs_ok`] asks.
pub fn swap_inputs_ok(
    pool_state: &PoolState,
    tick_arrays: &TickArrayPath,
    amm_config: &AmmConfig,
    observation_state: &ObservationState,
    block_timestamp: u64,
) -> (r: bool)
    ensures
        r == spec_swap_inputs_ok(*pool_state, *tick_arrays, *amm_config, *observation_state, block_timestamp),
{
    if !tick_arrays.is_wf() || amm_config.trade_fee_rate > FEE_RATE_DENOMINATOR_VALUE || pool_state.tick_spacing == 0
        || pool_state.tick_current < -0x3fff_ffff || pool_state.tick_current > 0x3fff_ffff
        || observation_state.observation_index as usize >= OBSERVATION_NUM {
        return false;
    }
    if !rewards_fit(pool_state, block_timestamp) {
        return false;
    }
    let ts = pool_state.tick_spacing;
    let span: i64 = 60 * (ts as i64);
    let n = tick_arrays.entries_len();
    let mut i: usize = 0;
    while i < n
        invariant
            0 <= i <= n,
            n == tick_arrays.entries().len(),
            ts == pool_state.tick_spacing,
            span == spec_tick_count(ts),
            forall|j: int| 0 <= j < i ==> spec_array_in_box(#[trigger] tick_arrays.entries()[j], ts),
            forall|j: int| 0 <= j < i ==> spec_nets_negatable(#[trigger] tick_arrays.entries()[j]),
        decreases n - i,
    {
        let a = tick_arrays.get(i);
        let start = a.start_tick_index as i64;
        if start < -0x2000_0000 || start + span > 0x2000_0000 {
            return false;
        }
        let mut t: usize = 0;
        while t < 60
            invariant
                0 <= t <= 60,
                i < n,
                n == tick_arrays.entries().len(),
                *a == tick_arrays.entries()[i as int],
                forall|j: int| 0 <= j < t ==> (#[trigger] a.ticks[j]).liquidity_net != i128::MIN,
            decreases 60 - t,
        {
            if a.ticks[t].liquidity_net == i128::MIN {
                assert(!spec_nets_negatable(tick_arrays.entries()[i as int]));
                return false;
            }
            t = t + 1;
        }
        i = i + 1;
    }
    true
}

/// Takes arrays from the front of the path until one holds `tick`.
fn find_first_array(tick_arrays: &mut TickArrayPath, tick: i32, tick_spacing: u16) -> (r: Result<usize>)
    requires
        old(tick_arrays).wf(),
        forall|i: int| 0 <= i < old(tick_arrays).entries().len() ==> spec_array_in_box(#[trigger] old(tick_arrays).entries()[i], tick_spacing),
    ensures
        final(tick_arrays).wf(),
        final(tick_arrays).entries() == old(tick_arrays).entries(),
        spec_first_array(old(tick_arrays).entries(), old(tick_arrays).head(), tick, tick_spacing) matches Some((c, h))
            ==> r == Ok::<usize, ProgramError>(c as usize) && final(tick_arrays).head() == h,
        spec_first_array(old(tick_arrays).entries(), old(tick_arrays).head(), tick, tick_spacing) is None
            ==> r == Err::<usize, ProgramError>(spec_program_error(ErrorCode::NotEnoughTickArrayAccount)),
{
    let ghost e0 = tick_arrays.entries();
    let ghost h0 = tick_arrays.head();
    let first = tick_arrays.pop_front();
    let mut current: usize = match first {
        Some(i) => i,
        None => {
            assert(h0 == e0.len());
            assert(spec_first_array(e0, h0, tick, tick_spacing) is None);
            return Err(ProgramError::from_code(ErrorCode::NotEnoughTickArrayAccount));
        },
    };
    while !array_contains_tick(tick_arrays.get(current), tick, tick_spacing)
        invariant
            tick_arrays.wf(),
            tick_arrays.entries() == e0,
            e0 == old(tick_arrays).entries(),
            h0 == old(tick_arrays).head(),
            current as int == tick_arrays.head() - 1,
            0 <= current < tick_arrays.entries().len(),
            forall|i: int| 0 <= i < e0.len() ==> spec_array_in_box(#[trigger] e0[i], tick_spacing),
            spec_first_array(e0, current as int, tick, tick_spacing) == spec_first_array(e0, h0, tick, tick_spacing),
        decreases tick_arrays.entries().len() - tick_arrays.head(),
    {
        let next = tick_arrays.pop_front();
        assert(spec_first_array(e0, current as int, tick, tick_spacing) == spec_first_array(e0, current + 1, tick, tick_spacing));
        current = match next {
            Some(i) => i,
            None => {
                assert(spec_first_array(e0, current + 1, tick, tick_spacing) is None);
                return Err(ProgramError::from_code(ErrorCode::NotEnoughTickArrayAccount));
            },
        };
    }
    assert(spec_first_array(e0, current as int, tick, tick_spacing) == Some((current as int, current + 1)));
    Ok(current)
}

/// Runs the swap loop until the amount is used up or the limit reached.
fn swap_loop(params: &SwapParams, tick_arrays: &mut TickArrayPath, state: &mut SwapState, current: &mut usize) -> (r: Result<()>)
    requires
        old(tick_arrays).wf(),
        loop_ok(*params, old(tick_arrays).entries(), *old(state), ticks_of(old(tick_arrays).entries()), *old(current) as int, old(tick_arrays).head()),
    ensures
        ({
            let e0 = old(tick_arrays).entries();
            let sr = spec_swap_run(*params, e0, *old(state), ticks_of(e0), *old(current) as int, old(tick_arrays).head(), MAX_SWAP_STEPS as nat);
            &&& r is Ok <==> sr is Ok
            &&& r matches Err(e) ==> sr == Err::<(SwapState, Seq<Seq<TickState>>, int, int), ProgramError>(e)
            &&& sr matches Ok((s2, t2, c2, h2)) ==> {
                &&& *final(state) == s2
                &&& ticks_of(final(tick_arrays).entries()) == t2
                &&& final(tick_arrays).head() == h2
                &&& same_but_ticks(e0, final(tick_arrays).entries())
                &&& final(tick_arrays).wf()
            }
        }),
{
    let ghost e0 = tick_arrays.entries();
    let ghost s0 = *state;
    let ghost c0 = *current as int;
    let ghost h0 = tick_arrays.head();
    let mut steps: u32 = 0;
    while state.amount_specified_remaining != 0 && state.sqrt_price_x64 != params.sqrt_price_limit_x64
        invariant
            steps <= MAX_SWAP_STEPS,
            e0 == old(tick_arrays).entries(),
            s0 == *old(state),
            c0 == *old(current) as int,
            h0 == old(tick_arrays).head(),
            tick_arrays.wf(),
            same_but_ticks(e0, tick_arrays.entries()),
            loop_ok(*params, tick_arrays.entries(), *state, ticks_of(tick_arrays.entries()), *current as int, tick_arrays.head()),
            spec_swap_run(*params, e0, *state, ticks_of(tick_arrays.entries()), *current as int, tick_arrays.head(), (MAX_SWAP_STEPS - steps) as nat)
                == spec_swap_run(*params, e0, s0, ticks_of(e0), c0, h0, MAX_SWAP_STEPS as nat),
        decreases MAX_SWAP_STEPS - steps,
    {
        if steps >= MAX_SWAP_STEPS {
            return Err(ProgramError::from_code(ErrorCode::LiquidityInsufficient));
        }
        let ghost e1 = tick_arrays.entries();
        let ghost fuel = (MAX_SWAP_STEPS - steps) as nat;
        proof {
            lemma_step_same_starts(*params, e0, e1, *state, ticks_of(e1), *current as int, tick_arrays.head());
        }
        steps = steps + 1;
        swap_step(params, tick_arrays, state, current)?;
        proof {
            let e2 = tick_arrays.entries();
            assert(same_but_ticks(e0, e2)) by {
                assert forall|i: int| 0 <= i < e0.len() implies #[trigger] e2[i] == (TickArrayState { ticks: e2[i].ticks, ..e0[i] }) by {
                    assert(e1[i] == (TickArrayState { ticks: e1[i].ticks, ..e0[i] }));
                    assert(e2[i] == (TickArrayState { ticks: e2[i].ticks, ..e1[i] }));
                }
            }
        }
    }
    Ok(())
}

/// The loop step reads of the arrays only their start indices and number.
proof fn lemma_step_same_starts(p: SwapParams, a: Seq<TickArrayState>, b: Seq<TickArrayState>, s: SwapState, t: Seq<Seq<TickState>>, c: int, h: int)
    requires
        same_but_ticks(a, b),
        0 <= c < h <= a.len(),
    ensures
        spec_swap_step(p, a, s, t, c, h) == spec_swap_step(p, b, s, t, c, h),
{
    reveal(spec_swap_step);
    assert(b[c] == (TickArrayState { ticks: b[c].ticks, ..a[c] }));
    if h < a.len() {
        assert(b[h] == (TickArrayState { ticks: b[h].ticks, ..a[h] }));
    }
    assert(spec_next_tick(p, a, s, t, c, h) == spec_next_tick(p, b, s, t, c, h));
}

/// The whole swap as the public entry runs it: a zero amount fails with
/// `InvaildSwapAmountSpecified`; reward schedules that cannot accrue within
/// their widths (where the arithmetic would overflow) with
/// `CalculateOverflow`; a limit on the wrong side with
/// `SqrtPriceLimitOverflow`; inputs outside what the swap is built for (see
/// [`spec_swap_inputs_ok`]) with `InvalidArgument`; otherwise as
/// [`spec_swap_internal`].
pub open spec fn spec_swap_checked(
    pool: PoolState,
    path: TickArrayPath,
    config: AmmConfig,
    obs: ObservationState,
    amount_specified: u64,
    limit: u128,
    zero_for_one: bool,
    is_base_input: bool,
    now: u64,
) -> Result<(SwapState, Seq<Seq<TickState>>, int, u64, u64, SwapInternalResult)> {
    if amount_specified == 0 {
        Err(spec_program_error(ErrorCode::InvaildSwapAmountSpecified))
    } else if !spec_rewards_fit(pool, now) {
        Err(spec_program_error(ErrorCode::CalculateOverflow))
    } else if !spec_limit_ok(pool.sqrt_price_x64, limit, zero_for_one) {
        Err(spec_program_error(ErrorCode::SqrtPriceLimitOverflow))
    } else if !spec_swap_inputs_ok(pool, path, config, obs, now) {
        Err(ProgramError::InvalidArgument)
    } else {
        spec_swap_internal(pool, path.entries(), path.head(), config, amount_specified, limit, zero_for_one, is_base_input, now)
    }
}

/// Swaps `amount_specified` of the input (or, for exact output, of the
/// output) token against the pool, walking the given tick arrays, and
/// records an observation. Fails as [`spec_swap_checked`] says: on a zero
/// amount or reward schedules that cannot accrue, before changing anything;
/// on a limit on the wrong side or inputs outside [`spec_swap_inputs_ok`],
/// with only the rewards accrued.
pub fn swap_internal(
    pool_state: &mut PoolState,
    tick_arrays: &mut TickArrayPath,
    amm_config: &AmmConfig,
    observation_state: &mut ObservationState,
    amount_specified: u64,
    sqrt_price_limit_x64: u128,
    zero_for_one: bool,
    is_base_input: bool,
    block_timestamp: u64,
) -> (r: Result<SwapInternalResult>)
    ensures
        ({
            let sr = spec_swap_checked(*old(pool_state), *old(tick_arrays), *amm_config, *old(observation_state),
                amount_specified, sqrt_price_limit_x64, zero_for_one, is_base_input, block_timestamp);
            &&& r is Ok <==> sr is Ok
            &&& r matches Err(e) ==> sr == Err::<(SwapState, Seq<Seq<TickState>>, int, u64, u64, SwapInternalResult), ProgramError>(e)
            &&& sr matches Ok((s, t, h, pf, ff, res)) ==> {
                &&& r == Ok::<SwapInternalResult, ProgramError>(res)
                &&& spec_pool_after_swap(*old(pool_state), *final(pool_state), s, pf, ff, zero_for_one, block_timestamp)
                &&& ticks_of(final(tick_arrays).entries()) == t
                &&& same_but_ticks(old(tick_arrays).entries(), final(tick_arrays).entries())
                &&& final(tick_arrays).head() == h
                &&& final(tick_arrays).wf()
                &&& spec_observation_updated(*old(observation_state), *final(observation_state), block_timestamp as u32, s.tick_current)
            }
        }),
        r is Ok ==> spec_swap_inputs_ok(*old(pool_state), *old(tick_arrays), *amm_config, *old(observation_state), block_timestamp),
        amount_specified == 0 || !spec_rewards_fit(*old(pool_state), block_timestamp) ==> {
            &&& *final(pool_state) == *old(pool_state)
            &&& *final(tick_arrays) == *old(tick_arrays)
            &&& *final(observation_state) == *old(observation_state)
        },
        amount_specified != 0 && spec_rewards_fit(*old(pool_state), block_timestamp)
            && (!spec_limit_ok(old(pool_state).sqrt_price_x64, sqrt_price_limit_x64, zero_for_one)
                || !spec_swap_inputs_ok(*old(pool_state), *old(tick_arrays), *amm_config, *old(observation_state), block_timestamp)) ==> {
            &&& spec_pool_rewards_updated(*old(pool_state), *final(pool_state), block_timestamp)
            &&& *final(tick_arrays) == *old(tick_arrays)
            &&& *final(observation_state) == *old(observation_state)
        },
        spec_swap_inputs_ok(*old(pool_state), *old(tick_arrays), *amm_config, *old(observation_state), block_timestamp)
            && amount_specified != 0 && spec_limit_ok(old(pool_state).sqrt_price_x64, sqrt_price_limit_x64, zero_for_one)
            && spec_first_array(old(tick_arrays).entries(), old(tick_arrays).head(), old(pool_state).tick_current, old(pool_state).tick_spacing) is None ==> {
            &&& spec_pool_rewards_updated(*old(pool_state), *final(pool_state), block_timestamp)
            &&& final(tick_arrays).entries() == old(tick_arrays).entries()
            &&& *final(observation_state) == *old(observation_state)
        },
{
    let inputs_ok = swap_inputs_ok(pool_state, tick_arrays, amm_config, observation_state, block_timestamp);
    if amount_specified == 0 {
        return Err(ProgramError::from_code(ErrorCode::InvaildSwapAmountSpecified));
    }
    if !rewards_fit(pool_state, block_timestamp) {
        return Err(ProgramError::from_code(ErrorCode::CalculateOverflow));
    }
    let ghost pool0 = *pool_state;
    let ghost e0 = tick_arrays.entries();
    update_pool_rewards(pool_state, block_timestamp)?;

    let tick_spacing: u16 = pool_state.tick_spacing;
    let total_fee_rate: u32 = amm_config.trade_fee_rate;
    let protocol_fee_rate: u32 = amm_config.protocol_fee_rate;
    let fund_fee_rate: u32 = amm_config.fund_fee_rate;
    let pool_fee_on = CollectFeeOn::from_u8(pool_state.fee_on);
    let is_fee_on_input = match pool_fee_on {
        CollectFeeOn::FromInput => true,
        CollectFeeOn::Token0Only => zero_for_one,
        CollectFeeOn::Token1Only => !zero_for_one,
    };

    let fee_growth_global_x64_at_start = if zero_for_one {
        pool_state.fee_growth_global_0_x64
    } else {
        pool_state.fee_growth_global_1_x64
    };

    let sqrt_price_x64_at_start: u128 = pool_state.sqrt_price_x64;
    let limit_ok = if zero_for_one {
        sqrt_price_limit_x64 < sqrt_price_x64_at_start && sqrt_price_limit_x64 > MIN_SQRT_PRICE_X64
    } else {
        sqrt_price_limit_x64 > sqrt_price_x64_at_start && sqrt_price_limit_x64 < MAX_SQRT_PRICE_X64
    };
    if !limit_ok {
        return Err(ProgramError::from_code(ErrorCode::SqrtPriceLimitOverflow));
    }
    if !inputs_ok {
        return Err(ProgramError::InvalidArgument);
    }

    let reward_growths_at_start: [u128; REWARD_NUM] = RewardInfo::get_reward_growths(&pool_state.reward_infos);
    let params = SwapParams {
        tick_spacing,
        zero_for_one,
        is_base_input,
        is_fee_on_input,
        trade_fee_rate: total_fee_rate,
        protocol_fee_rate,
        fund_fee_rate,
        sqrt_price_limit_x64,
        sqrt_price_x64_at_start,
        fee_growth_global_x64_at_start,
        reward_growths_at_start,
    };
    proof {
        assert(params == spec_swap_params(pool0, *amm_config, sqrt_price_limit_x64, zero_for_one, is_base_input, block_timestamp)) by {
            assert(params.reward_growths_at_start =~= spec_swap_params(pool0, *amm_config, sqrt_price_limit_x64, zero_for_one, is_base_input, block_timestamp).reward_growths_at_start);
        }
    }

    let mut state = SwapState {
        sqrt_price_x64: sqrt_price_x64_at_start,
        liquidity: pool_state.liquidity,
        fee_growth_global_input_x64: fee_growth_global_x64_at_start,
        protocol_fee_input: 0,
        fund_fee_input: 0,
        amount_specified_remaining: amount_specified,
        amount_calculated: 0,
        tick_current: pool_state.tick_current,
    };
    let ghost s0 = state;

    let ghost h_start = tick_arrays.head();
    proof {
        lemma_first_array_bounds(e0, h_start, pool0.tick_current, pool0.tick_spacing);
        assert(s0 == (SwapState {
            sqrt_price_x64: pool0.sqrt_price_x64,
            liquidity: pool0.liquidity,
            fee_growth_global_input_x64: params.fee_growth_global_x64_at_start,
            protocol_fee_input: 0,
            fund_fee_input: 0,
            amount_specified_remaining: amount_specified,
            amount_calculated: 0,
            tick_current: pool0.tick_current,
        }));
    }
    let mut current = find_first_array(tick_arrays, state.tick_current, tick_spacing)?;
    proof {
        assert(ticks_of(e0).len() == e0.len());
        assert forall|i: int| 0 <= i < e0.len() implies (#[trigger] ticks_of(e0)[i]).len() == 60 by {
            assert(ticks_of(e0)[i] == e0[i].ticks@);
        }
        assert forall|i: int, j: int| 0 <= i < e0.len() && 0 <= j < 60 implies (#[trigger] ticks_of(e0)[i][j]).liquidity_net != i128::MIN by {
            assert(ticks_of(e0)[i] == e0[i].ticks@);
            assert(spec_nets_negatable(e0[i]));
        }
    }
    swap_loop(&params, tick_arrays, &mut state, &mut current)?;

    pool_state.sqrt_price_x64 = state.sqrt_price_x64;
    pool_state.tick_current = state.tick_current;
    pool_state.liquidity = state.liquidity;
    if zero_for_one {
        pool_state.fee_growth_global_0_x64 = state.fee_growth_global_input_x64;
        pool_state.protocol_fees_token_0 = match pool_state.protocol_fees_token_0.checked_add(state.protocol_fee_input) {
            Some(v) => v,
            None => return Err(ProgramError::from_code(ErrorCode::CalculateOverflow)),
        };
        pool_state.fund_fees_token_0 = match pool_state.fund_fees_token_0.checked_add(state.fund_fee_input) {
            Some(v) => v,
            None => return Err(ProgramError::from_code(ErrorCode::CalculateOverflow)),
        };
    } else {
        pool_state.fee_growth_global_1_x64 = state.fee_growth_global_input_x64;
        pool_state.protocol_fees_token_1 = match pool_state.protocol_fees_token_1.checked_add(state.protocol_fee_input) {
            Some(v) => v,
            None => return Err(ProgramError::from_code(ErrorCode::CalculateOverflow)),
        };
        pool_state.fund_fees_token_1 = match pool_state.fund_fees_token_1.checked_add(state.fund_fee_input) {
            Some(v) => v,
            None => return Err(ProgramError::from_code(ErrorCode::CalculateOverflow)),
        };
    }

    update_observation(observation_state, block_timestamp as u32, state.tick_current);

    let consumed = match amount_specified.checked_sub(state.amount_specified_remaining) {
        Some(v) => v,
        None => return Err(ProgramError::from_code(ErrorCode::CalculateOverflow)),
    };
    let (amount_0, amount_1) = if is_base_input {
        if zero_for_one {
            (consumed, state.amount_calculated)
        } else {
            (state.amount_calculated, consumed)
        }
    } else {
        if zero_for_one {
            (state.amount_calculated, consumed)
        } else {
            (consumed, state.amount_calculated)
        }
    };
    Ok(SwapInternalResult { amount_0, amount_1 })
}

} // verus!

