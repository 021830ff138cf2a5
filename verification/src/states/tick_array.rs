//! Ticks and the fixed-size arrays of ticks a pool stores them in.

use crate::libraries::arith::{lemma_floor_div_neg, lemma_floor_multiple_bounds};
use crate::libraries::tick_math::{MAX_TICK, MIN_TICK};
use crate::states::pool::REWARD_NUM;
use crate::Pubkey;
use vstd::prelude::*;

verus! {

/// Seed of a tick-array account address.
pub const TICK_ARRAY_SEED: [u8; 10] = [116, 105, 99, 107, 95, 97, 114, 114, 97, 121];

/// Number of ticks in one array.
pub const TICK_ARRAY_SIZE_USIZE: usize = 60;

/// Number of ticks in one array.
pub const TICK_ARRAY_SIZE: i32 = 60;

/// Outcome of matching limit orders at a tick.
#[derive(Debug, Clone, Copy, Default)]
pub struct LimitOrderMatchResult {
    pub amount_in: u64,
    pub amount_out: u64,
    pub amm_fee_amount: u64,
}

/// One tick of a pool.
#[derive(Copy, Clone, Debug)]
pub struct TickState {
    pub tick: i32,
    pub liquidity_net: i128,
    pub liquidity_gross: u128,
    pub fee_growth_outside_0_x64: u128,
    pub fee_growth_outside_1_x64: u128,
    pub reward_growths_outside_x64: [u128; REWARD_NUM],
    pub order_phase: u64,
    pub orders_amount: u64,
    pub part_filled_orders_remaining: u64,
    pub unfilled_ratio_x64: u128,
    pub padding: [u32; 3],
}

/// Whether a tick is outside `[MIN_TICK, MAX_TICK]`.
pub open spec fn spec_out_of_boundary(tick: i32) -> bool {
    tick < MIN_TICK || tick > MAX_TICK
}

/// Whether a tick holds liquidity or orders.
pub open spec fn spec_tick_initialized(t: TickState) -> bool {
    t.liquidity_gross != 0 || t.orders_amount != 0 || t.part_filled_orders_remaining != 0
}

impl TickState {
    /// Stored size of a tick.
    pub const LEN: usize = 4 + 16 + 16 + 16 + 16 + 16 * REWARD_NUM + 4 * 8 + 16 + 4 * 1;

    /// Whether a tick index lies outside the supported range.
    pub fn check_is_out_of_boundary(tick: i32) -> (r: bool)
        ensures
            r == spec_out_of_boundary(tick),
    {
        tick < MIN_TICK || tick > MAX_TICK
    }

    /// Whether the tick holds liquidity or orders.
    pub fn is_initialized(&self) -> (r: bool)
        ensures
            r == spec_tick_initialized(*self),
    {
        self.liquidity_gross != 0 || self.orders_amount != 0 || self.part_filled_orders_remaining != 0
    }
}

/// Sixty consecutive ticks (at the pool's spacing) of a pool.
#[derive(Copy, Clone, Debug)]
pub struct TickArrayState {
    pub pool_id: Pubkey,
    pub start_tick_index: i32,
    pub ticks: [TickState; TICK_ARRAY_SIZE_USIZE],
    pub initialized_tick_count: u8,
    pub recent_epoch: u64,
    pub padding: [u8; 107],
}

/// Number of tick indices an array spans.
pub open spec fn spec_tick_count(tick_spacing: u16) -> int {
    TICK_ARRAY_SIZE * tick_spacing
}

/// Start index of the array holding `tick_index`: the largest multiple of
/// the array span not above it.
pub open spec fn spec_array_start_index(tick_index: i32, tick_spacing: u16) -> int {
    (tick_index as int / spec_tick_count(tick_spacing)) * spec_tick_count(tick_spacing)
}

/// Whether `tick_index` can start a tick array: a multiple of the span within
/// range, or the start of the array holding `MIN_TICK`.
pub open spec fn spec_valid_start_index(tick_index: i32, tick_spacing: u16) -> bool {
    if spec_out_of_boundary(tick_index) {
        if tick_index > MAX_TICK {
            false
        } else {
            tick_index == spec_array_start_index(MIN_TICK, tick_spacing)
        }
    } else {
        tick_index as int % spec_tick_count(tick_spacing) == 0
    }
}

impl TickArrayState {
    /// Account tag of a tick array.
    pub const DISCRIMINATOR: [u8; 8] = [192, 155, 85, 205, 49, 249, 129, 42];

    /// Stored size of a tick array, with its 8-byte tag.
    pub const LEN: usize = 8 + 32 + 4 + TickState::LEN * TICK_ARRAY_SIZE_USIZE + 1 + 115;

    /// Number of tick indices an array spans.
    pub fn tick_count(tick_spacing: u16) -> (r: i32)
        ensures
            r == spec_tick_count(tick_spacing),
    {
        TICK_ARRAY_SIZE * (tick_spacing as i32)
    }

    /// Start index of the array that holds `tick_index`.
    pub fn get_array_start_index(tick_index: i32, tick_spacing: u16) -> (r: i32)
        requires
            tick_spacing > 0,
            spec_array_start_index(tick_index, tick_spacing) >= i32::MIN,
        ensures
            r == spec_array_start_index(tick_index, tick_spacing),
    {
        let ticks_in_array = Self::tick_count(tick_spacing);
        let ghost n = spec_tick_count(tick_spacing);
        proof {
            lemma_floor_multiple_bounds(tick_index as int, n);
            if tick_index < 0 {
                lemma_floor_div_neg(-tick_index, n);
                vstd::arithmetic::div_mod::lemma_div_is_ordered_by_denominator(-tick_index, 60, n);
                vstd::arithmetic::div_mod::lemma_div_pos_is_pos(-tick_index, n);
                vstd::arithmetic::div_mod::lemma_fundamental_div_mod(-tick_index, n);
            }
        }
        let mut start = tick_index / ticks_in_array;
        if tick_index < 0 && tick_index % ticks_in_array != 0 {
            start = start - 1;
        }
        assert(start == tick_index as int / n);
        start * ticks_in_array
    }

    /// Whether `tick_index` can start a tick array.
    pub fn check_is_valid_start_index(tick_index: i32, tick_spacing: u16) -> (r: bool)
        requires
            tick_spacing > 0,
        ensures
            r == spec_valid_start_index(tick_index, tick_spacing),
    {
        if TickState::check_is_out_of_boundary(tick_index) {
            if tick_index > MAX_TICK {
                return false;
            }
            proof {
                lemma_floor_multiple_bounds(MIN_TICK as int, spec_tick_count(tick_spacing));
            }
            let min_start_index = Self::get_array_start_index(MIN_TICK, tick_spacing);
            return tick_index == min_start_index;
        }
        proof {
            if tick_index < 0 {
                lemma_floor_div_neg(-tick_index, spec_tick_count(tick_spacing));
            }
        }
        tick_index % Self::tick_count(tick_spacing) == 0
    }
}

/// Every supported tick lies in the array that starts at its start index,
/// and that index is a valid array start.
pub proof fn lemma_start_index_valid(tick_index: i32, tick_spacing: u16)
    requires
        tick_spacing > 0,
        !spec_out_of_boundary(tick_index),
    ensures
        i32::MIN <= spec_array_start_index(tick_index, tick_spacing) <= tick_index,
        tick_index < spec_array_start_index(tick_index, tick_spacing) + spec_tick_count(tick_spacing),
        spec_valid_start_index(spec_array_start_index(tick_index, tick_spacing) as i32, tick_spacing),
{
    let n = spec_tick_count(tick_spacing);
    let k = tick_index as int / n;
    let st = spec_array_start_index(tick_index, tick_spacing);
    lemma_floor_multiple_bounds(tick_index as int, n);
    assert(n <= 60 * 65535);
    assert(st == k * n);
    vstd::arithmetic::div_mod::lemma_mod_multiples_basic(k, n);
    assert((k * n) % n == 0);
    if st < MIN_TICK {
        let m = MIN_TICK as int;
        assert(st <= m < st + n);
        vstd::arithmetic::div_mod::lemma_fundamental_div_mod_converse(m, n, k, m - k * n);
        assert(m / n == k);
        assert(spec_array_start_index(MIN_TICK, tick_spacing) == st);
    }
}

} // verus!
