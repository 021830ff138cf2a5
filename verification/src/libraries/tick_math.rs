//! Conversion between ticks and Q64.64 sqrt prices: the sqrt price of tick
//! `t` approximates `sqrt(1.0001^t) * 2^64`.

use crate::error::{spec_program_error, ErrorCode, ProgramError, Result};
use vstd::prelude::*;

verus! {

/// The lowest tick.
pub const MIN_TICK: i32 = -443636;

/// The highest tick.
pub const MAX_TICK: i32 = 443636;

/// The sqrt price of `MIN_TICK`.
pub const MIN_SQRT_PRICE_X64: u128 = 4295048016;

/// The sqrt price of `MAX_TICK`.
pub const MAX_SQRT_PRICE_X64: u128 = 79226673521066979257578248091;

/// `2^64 / sqrt(1.0001)^(2^k)` in Q64.64, for the bits `k` of a tick's magnitude.
pub open spec fn tick_factor(k: nat) -> int {
    if k == 0 { 0xfffcb933bd6fb800 }
    else if k == 1 { 0xfff97272373d4000 }
    else if k == 2 { 0xfff2e50f5f657000 }
    else if k == 3 { 0xffe5caca7e10f000 }
    else if k == 4 { 0xffcb9843d60f7000 }
    else if k == 5 { 0xff973b41fa98e800 }
    else if k == 6 { 0xff2ea16466c9b000 }
    else if k == 7 { 0xfe5dee046a9a3800 }
    else if k == 8 { 0xfcbe86c7900bb000 }
    else if k == 9 { 0xf987a7253ac65800 }
    else if k == 10 { 0xf3392b0822bb6000 }
    else if k == 11 { 0xe7159475a2caf000 }
    else if k == 12 { 0xd097f3bdfd2f2000 }
    else if k == 13 { 0xa9f746462d9f8000 }
    else if k == 14 { 0x70d869a156f31c00 }
    else if k == 15 { 0x31be135f97ed3200 }
    else if k == 16 { 0x9aa508b5b85a500 }
    else if k == 17 { 0x5d6af8dedc582c }
    else { 0x2216e584f5fa }
}

/// Whether bit `k` of `x` is set.
pub open spec fn bit_set(x: u32, k: nat) -> bool {
    (x >> (k as u32)) & 1u32 == 1u32
}

/// The Q64.64 ratio `2^64 / sqrt(1.0001)^(x mod 2^k)`, accumulated over the
/// low `k` bits of `x`, each factor applied with a floor.
pub open spec fn ratio_upto(x: u32, k: nat) -> int
    decreases k,
{
    if k == 0 {
        0x1_0000_0000_0000_0000
    } else if k == 1 {
        if bit_set(x, 0) { tick_factor(0) } else { 0x1_0000_0000_0000_0000 }
    } else {
        let prev = ratio_upto(x, (k - 1) as nat);
        if bit_set(x, (k - 1) as nat) {
            prev * tick_factor((k - 1) as nat) / 0x1_0000_0000_0000_0000
        } else {
            prev
        }
    }
}

/// The same accumulation with every bit set: the smallest ratio.
pub open spec fn ratio_floor(k: nat) -> int
    decreases k,
{
    if k == 0 {
        0x1_0000_0000_0000_0000
    } else if k == 1 {
        tick_factor(0)
    } else {
        ratio_floor((k - 1) as nat) * tick_factor((k - 1) as nat) / 0x1_0000_0000_0000_0000
    }
}

/// Magnitude of a tick.
pub open spec fn tick_abs(tick: i32) -> int {
    if tick < 0 { -tick } else { tick as int }
}

/// The sqrt price of a tick in range: the accumulated ratio for its
/// magnitude, inverted (`(2^128 - 1) / ratio`) for positive ticks.
pub open spec fn spec_sqrt_price_at_tick(tick: i32) -> int {
    let r = ratio_upto(tick_abs(tick) as u32, 19);
    if tick > 0 { (u128::MAX as int) / r } else { r }
}

/// Result of [`get_sqrt_price_at_tick`]: `TickUpperOverflow` outside
/// `[MIN_TICK, MAX_TICK]`.
pub open spec fn spec_get_sqrt_price_at_tick(tick: i32) -> Result<u128> {
    if tick_abs(tick) > MAX_TICK {
        Err(spec_program_error(ErrorCode::TickUpperOverflow))
    } else {
        Ok(spec_sqrt_price_at_tick(tick) as u128)
    }
}

/// Each accumulated ratio lies in `[ratio_floor(k), 2^64]`.
pub proof fn lemma_ratio_bounds(x: u32, k: nat)
    requires
        k <= 19,
    ensures
        ratio_floor(k) <= ratio_upto(x, k) <= 0x1_0000_0000_0000_0000,
        ratio_floor(k) >= 0,
    decreases k,
{
    if k >= 2 {
        lemma_ratio_bounds(x, (k - 1) as nat);
        let prev = ratio_upto(x, (k - 1) as nat);
        let lowp = ratio_floor((k - 1) as nat);
        let c = tick_factor((k - 1) as nat);
        assert(0 < c < 0x1_0000_0000_0000_0000);
        assert(lowp * c / 0x1_0000_0000_0000_0000 <= prev * c / 0x1_0000_0000_0000_0000) by {
            assert(lowp * c <= prev * c) by (nonlinear_arith) requires 0 <= lowp <= prev, c > 0;
            vstd::arithmetic::div_mod::lemma_div_is_ordered(lowp * c, prev * c, 0x1_0000_0000_0000_0000);
        }
        assert(prev * c / 0x1_0000_0000_0000_0000 <= prev) by {
            assert(prev * c <= prev * 0x1_0000_0000_0000_0000) by (nonlinear_arith)
                requires 0 <= prev, 0 < c < 0x1_0000_0000_0000_0000;
            vstd::arithmetic::div_mod::lemma_div_is_ordered(prev * c, prev * 0x1_0000_0000_0000_0000, 0x1_0000_0000_0000_0000);
            vstd::arithmetic::div_mod::lemma_div_by_multiple(prev, 0x1_0000_0000_0000_0000);
        }
        assert(0 <= lowp * c / 0x1_0000_0000_0000_0000) by {
            assert(0 <= lowp * c) by (nonlinear_arith) requires 0 <= lowp, c > 0;
            vstd::arithmetic::div_mod::lemma_div_pos_is_pos(lowp * c, 0x1_0000_0000_0000_0000);
        }
    }
}

/// The smallest accumulated ratio is positive.
pub proof fn lemma_ratio_floor_positive()
    ensures
        ratio_floor(19) == 76162531,
{
    reveal_with_fuel(ratio_floor, 20);
}

/// The factor for bit `k` of a tick's magnitude.
fn factor(k: u32) -> (r: u128)
    requires
        k < 19,
    ensures
        r == tick_factor(k as nat),
{
    if k == 0 {
        0xfffcb933bd6fb800
    } else if k == 1 {
        0xfff97272373d4000
    } else if k == 2 {
        0xfff2e50f5f657000
    } else if k == 3 {
        0xffe5caca7e10f000
    } else if k == 4 {
        0xffcb9843d60f7000
    } else if k == 5 {
        0xff973b41fa98e800
    } else if k == 6 {
        0xff2ea16466c9b000
    } else if k == 7 {
        0xfe5dee046a9a3800
    } else if k == 8 {
        0xfcbe86c7900bb000
    } else if k == 9 {
        0xf987a7253ac65800
    } else if k == 10 {
        0xf3392b0822bb6000
    } else if k == 11 {
        0xe7159475a2caf000
    } else if k == 12 {
        0xd097f3bdfd2f2000
    } else if k == 13 {
        0xa9f746462d9f8000
    } else if k == 14 {
        0x70d869a156f31c00
    } else if k == 15 {
        0x31be135f97ed3200
    } else if k == 16 {
        0x9aa508b5b85a500
    } else if k == 17 {
        0x5d6af8dedc582c
    } else {
        0x2216e584f5fa
    }
}

/// The sqrt price of a tick, failing outside `[MIN_TICK, MAX_TICK]`.
pub fn get_sqrt_price_at_tick(tick: i32) -> (r: Result<u128>)
    ensures
        r == spec_get_sqrt_price_at_tick(tick),
{
    let abs_tick: u32 = if tick < 0 { (-(tick + 1)) as u32 + 1 } else { tick as u32 };
    if abs_tick > MAX_TICK as u32 {
        return Err(ProgramError::from_code(ErrorCode::TickUpperOverflow));
    }
    proof {
        assert(abs_tick & 1u32 != 0 <==> (abs_tick >> 0u32) & 1u32 == 1u32) by (bit_vector);
    }
    let mut ratio: u128 = if abs_tick & 0x1 != 0 {
        0xfffcb933bd6fb800
    } else {
        0x1_0000_0000_0000_0000
    };
    let mut k: u32 = 1;
    while k < 19
        invariant
            1 <= k <= 19,
            ratio == ratio_upto(abs_tick, k as nat),
            abs_tick == tick_abs(tick),
        decreases 19 - k,
    {
        proof {
            lemma_ratio_bounds(abs_tick, k as nat);
            assert(abs_tick & (1u32 << k) != 0 <==> (abs_tick >> k) & 1u32 == 1u32) by (bit_vector)
                requires k < 32;
        }
        if abs_tick & (1u32 << k) != 0 {
            let c = factor(k);
            proof {
                assert(ratio * c <= 0x1_0000_0000_0000_0000 * 0xffff_ffff_ffff_ffff) by (nonlinear_arith)
                    requires ratio <= 0x1_0000_0000_0000_0000, c <= 0xffff_ffff_ffff_ffff;
            }
            let p = ratio * c;
            proof {
                vstd::bits::lemma_u128_shr_is_div(p, 64);
                vstd::arithmetic::power2::lemma2_to64();
            }
            ratio = p >> 64u32;
        }
        k = k + 1;
    }
    proof {
        lemma_ratio_bounds(abs_tick, 19);
        lemma_ratio_floor_positive();
    }
    if tick > 0 {
        ratio = u128::MAX / ratio;
    }
    Ok(ratio)
}

/// The sqrt prices of the extreme ticks are the extreme sqrt prices.
pub proof fn lemma_extreme_sqrt_prices()
    ensures
        spec_sqrt_price_at_tick(MIN_TICK) == MIN_SQRT_PRICE_X64,
        spec_sqrt_price_at_tick(MAX_TICK) == MAX_SQRT_PRICE_X64,
{
    assert(tick_abs(MIN_TICK) == 443636);
    assert(tick_abs(MAX_TICK) == 443636);
    assert(bit_set(443636u32, 0) == false) by (bit_vector);
    assert(bit_set(443636u32, 1) == false) by (bit_vector);
    assert(bit_set(443636u32, 2) == true) by (bit_vector);
    assert(bit_set(443636u32, 3) == false) by (bit_vector);
    assert(bit_set(443636u32, 4) == true) by (bit_vector);
    assert(bit_set(443636u32, 5) == true) by (bit_vector);
    assert(bit_set(443636u32, 6) == true) by (bit_vector);
    assert(bit_set(443636u32, 7) == true) by (bit_vector);
    assert(bit_set(443636u32, 8) == false) by (bit_vector);
    assert(bit_set(443636u32, 9) == false) by (bit_vector);
    assert(bit_set(443636u32, 10) == true) by (bit_vector);
    assert(bit_set(443636u32, 11) == false) by (bit_vector);
    assert(bit_set(443636u32, 12) == false) by (bit_vector);
    assert(bit_set(443636u32, 13) == false) by (bit_vector);
    assert(bit_set(443636u32, 14) == true) by (bit_vector);
    assert(bit_set(443636u32, 15) == true) by (bit_vector);
    assert(bit_set(443636u32, 16) == false) by (bit_vector);
    assert(bit_set(443636u32, 17) == true) by (bit_vector);
    assert(bit_set(443636u32, 18) == true) by (bit_vector);
    assert(ratio_upto(443636u32, 1) == 18446744073709551616);
    assert(ratio_upto(443636u32, 2) == 18446744073709551616);
    assert(ratio_upto(443636u32, 3) == 18443055278223355904);
    assert(ratio_upto(443636u32, 4) == 18443055278223355904);
    assert(ratio_upto(443636u32, 5) == 18428307471288122970);
    assert(ratio_upto(443636u32, 6) == 18398847226801874084);
    assert(ratio_upto(443636u32, 7) == 18340067951587048657);
    assert(ratio_upto(443636u32, 8) == 18223072152272633034);
    assert(ratio_upto(443636u32, 9) == 18223072152272633034);
    assert(ratio_upto(443636u32, 10) == 18223072152272633034);
    assert(ratio_upto(443636u32, 11) == 17313578044588124205);
    assert(ratio_upto(443636u32, 12) == 17313578044588124205);
    assert(ratio_upto(443636u32, 13) == 17313578044588124205);
    assert(ratio_upto(443636u32, 14) == 17313578044588124205);
    assert(ratio_upto(443636u32, 15) == 7631863196528592884);
    assert(ratio_upto(443636u32, 16) == 1482921196046239949);
    assert(ratio_upto(443636u32, 17) == 1482921196046239949);
    assert(ratio_upto(443636u32, 18) == 2113820261058665);
    assert(ratio_upto(443636u32, 19) == 4295048016);
}

/// The tick the bisection between `lo` and `hi` settles on for a sqrt price.
pub open spec fn tick_search(sqrt_price_x64: u128, lo: int, hi: int) -> int
    decreases hi - lo,
{
    if hi - lo <= 1 {
        lo
    } else {
        let mid = lo + (hi - lo) / 2;
        if spec_sqrt_price_at_tick(mid as i32) <= sqrt_price_x64 {
            tick_search(sqrt_price_x64, mid, hi)
        } else {
            tick_search(sqrt_price_x64, lo, mid)
        }
    }
}

/// Result of [`get_tick_at_sqrt_price`].
pub open spec fn spec_get_tick_at_sqrt_price(sqrt_price_x64: u128) -> Result<i32> {
    if MIN_SQRT_PRICE_X64 <= sqrt_price_x64 < MAX_SQRT_PRICE_X64 {
        Ok(tick_search(sqrt_price_x64, MIN_TICK as int, MAX_TICK as int) as i32)
    } else {
        Err(spec_program_error(ErrorCode::SqrtPriceX64))
    }
}

/// The greatest tick whose sqrt price does not exceed `sqrt_price_x64`:
/// `SqrtPriceX64` outside `[MIN_SQRT_PRICE_X64, MAX_SQRT_PRICE_X64)`.
pub open spec fn spec_tick_at_sqrt_price_ok(sqrt_price_x64: u128, tick: i32) -> bool {
    &&& MIN_TICK <= tick < MAX_TICK
    &&& spec_sqrt_price_at_tick(tick) <= sqrt_price_x64
    &&& sqrt_price_x64 < spec_sqrt_price_at_tick((tick + 1) as i32)
}

/// The tick of a sqrt price: the tick `t` with
/// `sqrt_price(t) <= sqrt_price_x64 < sqrt_price(t + 1)`.
pub fn get_tick_at_sqrt_price(sqrt_price_x64: u128) -> (r: Result<i32>)
    ensures
        !(MIN_SQRT_PRICE_X64 <= sqrt_price_x64 < MAX_SQRT_PRICE_X64) ==> r == Err::<i32, ProgramError>(
            spec_program_error(ErrorCode::SqrtPriceX64),
        ),
        (MIN_SQRT_PRICE_X64 <= sqrt_price_x64 < MAX_SQRT_PRICE_X64) ==> (r matches Ok(t)
            && spec_tick_at_sqrt_price_ok(sqrt_price_x64, t)),
        r == spec_get_tick_at_sqrt_price(sqrt_price_x64),
{
    if !(sqrt_price_x64 >= MIN_SQRT_PRICE_X64 && sqrt_price_x64 < MAX_SQRT_PRICE_X64) {
        return Err(ProgramError::from_code(ErrorCode::SqrtPriceX64));
    }
    proof { lemma_extreme_sqrt_prices(); }
    let mut lo: i32 = MIN_TICK;
    let mut hi: i32 = MAX_TICK;
    while hi - lo > 1
        invariant
            MIN_TICK <= lo < hi <= MAX_TICK,
            spec_sqrt_price_at_tick(lo) <= sqrt_price_x64,
            sqrt_price_x64 < spec_sqrt_price_at_tick(hi),
            tick_search(sqrt_price_x64, lo as int, hi as int) == tick_search(sqrt_price_x64, MIN_TICK as int, MAX_TICK as int),
        decreases hi - lo,
    {
        let mid = lo + (hi - lo) / 2;
        let at_mid = match get_sqrt_price_at_tick(mid) {
            Ok(v) => v,
            Err(_) => { assert(false); 0 },
        };
        proof {
            lemma_ratio_bounds(tick_abs(mid) as u32, 19);
            lemma_ratio_floor_positive();
            if mid > 0 {
                vstd::arithmetic::div_mod::lemma_div_is_ordered_by_denominator(u128::MAX as int, 1, ratio_upto(tick_abs(mid) as u32, 19));
                vstd::arithmetic::div_mod::lemma_div_pos_is_pos(u128::MAX as int, ratio_upto(tick_abs(mid) as u32, 19));
            }
        }
        if at_mid <= sqrt_price_x64 {
            lo = mid;
        } else {
            hi = mid;
        }
    }
    Ok(lo)
}

} // verus!
