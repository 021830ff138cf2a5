//! The sqrt price grows strictly with the tick, so that the tick of the
//! sqrt price of a tick is that tick.

use crate::libraries::tick_math::{
    bit_set, lemma_extreme_sqrt_prices, lemma_ratio_bounds, lemma_ratio_floor_positive, ratio_floor, ratio_upto,
    spec_get_sqrt_price_at_tick, spec_get_tick_at_sqrt_price, spec_sqrt_price_at_tick, tick_abs, tick_factor,
    tick_search, MAX_SQRT_PRICE_X64, MAX_TICK, MIN_SQRT_PRICE_X64, MIN_TICK,
};
use vstd::prelude::*;

verus! {

/// Adding one to `x`, whose low `j` bits are set and bit `j` clear, clears
/// those low bits, sets bit `j` and keeps the bits above.
proof fn lemma_increment_bits(x: u32, y: u32, j: u32, m: u32)
    by (bit_vector)
    requires
        j < 19,
        m < 19,
        x < 0x7ffff,
        y == x + 1,
        x & (((1u32 << j) - 1u32) as u32) == (((1u32 << j) - 1u32) as u32),
        (x >> j) & 1u32 == 0u32,
    ensures
        m < j ==> (x >> m) & 1u32 == 1u32 && (y >> m) & 1u32 == 0u32,
        m == j ==> (y >> m) & 1u32 == 1u32,
        m > j ==> (x >> m) & 1u32 == (y >> m) & 1u32,
{
}

/// A lower bound on how far apart the accumulations of two magnitudes stay
/// after `k` bits once they first differ, whatever the higher bits.
pub open spec fn gap_bound(k: nat) -> int {
    if k == 0 { 242202408303 }
    else if k == 1 { 242190299090 }
    else if k == 2 { 242166082481 }
    else if k == 3 { 242117656528 }
    else if k == 4 { 242020833672 }
    else if k == 5 { 241827304103 }
    else if k == 6 { 241440709104 }
    else if k == 7 { 240669372198 }
    else if k == 8 { 239134083144 }
    else if k == 9 { 236092824516 }
    else if k == 10 { 230125849686 }
    else if k == 11 { 218640513812 }
    else if k == 12 { 197360895837 }
    else if k == 13 { 160813329889 }
    else if k == 14 { 106768691122 }
    else if k == 15 { 47063873349 }
    else if k == 16 { 9144820021 }
    else if k == 17 { 345263091 }
    else if k == 18 { 492153 }
    else { 1 }
}

/// The gap bounds survive one more factor: `floor(gap_bound(k) * F_k / 2^64)`
/// is at least `gap_bound(k + 1)`, and the bounds never grow.
proof fn lemma_gap_bound_table(k: nat)
    requires
        k < 19,
    ensures
        gap_bound(k) * tick_factor(k) / 0x1_0000_0000_0000_0000 >= gap_bound(k + 1),
        gap_bound(k) >= gap_bound(k + 1) >= 1,
{
}

/// The first differing accumulations are far enough apart: with the low
/// `j` bits set and bit `j` clear against bit `j` set alone, the gap after
/// `j + 1` bits meets the bound.
proof fn lemma_first_gap(j: nat)
    requires
        j < 19,
    ensures
        ratio_floor(j) - tick_factor(j) >= gap_bound(j + 1),
{
    reveal_with_fuel(ratio_floor, 20);
}

/// Low bits extend: with the low `j` bits set and bit `j` set, the low
/// `j + 1` bits are set; all 19 low bits set means at least `2^19 - 1`.
proof fn lemma_low_bits(x: u32, j: u32)
    by (bit_vector)
    requires
        j < 19,
    ensures
        x & (((1u32 << 0u32) - 1u32) as u32) == (((1u32 << 0u32) - 1u32) as u32),
        (x & (((1u32 << j) - 1u32) as u32) == (((1u32 << j) - 1u32) as u32) && (x >> j) & 1u32 == 1u32)
            ==> x & (((1u32 << ((j + 1) as u32)) - 1u32) as u32) == (((1u32 << ((j + 1) as u32)) - 1u32) as u32),
        x & (((1u32 << 19u32) - 1u32) as u32) == (((1u32 << 19u32) - 1u32) as u32) ==> x >= 0x7ffff,
        (x >> j) & 1u32 == 0u32 || (x >> j) & 1u32 == 1u32,
{
}

/// `floor(a f / 2^64) - floor(b f / 2^64) >= h2` when `a - b >= h1` and
/// `floor(h1 f / 2^64) >= h2`.
proof fn lemma_gap_step(a: int, b: int, f: int, h1: int, h2: int)
    requires
        a - b >= h1 >= 0,
        b >= 0,
        f > 0,
        h1 * f / 0x1_0000_0000_0000_0000 >= h2,
    ensures
        a * f / 0x1_0000_0000_0000_0000 - b * f / 0x1_0000_0000_0000_0000 >= h2,
{
    let n = 0x1_0000_0000_0000_0000int;
    let d = a - b;
    assert(a * f == b * f + d * f) by (nonlinear_arith) requires d == a - b;
    assert(d * f >= h1 * f) by (nonlinear_arith) requires d >= h1, f > 0;
    assert(b * f >= 0) by (nonlinear_arith) requires b >= 0, f > 0;
    assert(h1 * f >= 0) by (nonlinear_arith) requires h1 >= 0, f > 0;
    vstd::arithmetic::div_mod::lemma_div_is_ordered(h1 * f, d * f, n);
    vstd::arithmetic::div_mod::lemma_fundamental_div_mod(b * f, n);
    vstd::arithmetic::div_mod::lemma_fundamental_div_mod(d * f, n);
    vstd::arithmetic::div_mod::lemma_fundamental_div_mod(a * f, n);
    let q1 = b * f / n;
    let q2 = d * f / n;
    let r1 = b * f % n;
    let r2 = d * f % n;
    assert(a * f == n * (q1 + q2) + (r1 + r2)) by (nonlinear_arith)
        requires a * f == b * f + d * f, b * f == n * q1 + r1, d * f == n * q2 + r2;
    assert(0 <= r1 + r2);
    assert(a * f / n >= q1 + q2) by {
        vstd::arithmetic::div_mod::lemma_div_is_ordered(n * (q1 + q2), a * f, n);
        vstd::arithmetic::div_mod::lemma_div_multiples_vanish(q1 + q2, n);
    }
}

/// Once two magnitudes agree above bit `j` and their accumulations after
/// `j + 1` bits differ by the bound, they keep differing by the bound.
proof fn lemma_ratio_gap(x: u32, y: u32, j: nat, k: nat)
    requires
        j < k <= 19,
        forall|m: nat| j < m < 19 ==> #[trigger] bit_set(x, m) == bit_set(y, m),
        ratio_upto(x, j + 1) - ratio_upto(y, j + 1) >= gap_bound(j + 1),
    ensures
        ratio_upto(x, k) - ratio_upto(y, k) >= gap_bound(k),
    decreases k,
{
    if k > j + 1 {
        lemma_ratio_gap(x, y, j, (k - 1) as nat);
        lemma_gap_bound_table((k - 1) as nat);
        lemma_ratio_bounds(y, (k - 1) as nat);
        let m = (k - 1) as nat;
        assert(bit_set(x, m) == bit_set(y, m));
        if bit_set(x, m) {
            lemma_gap_step(ratio_upto(x, m), ratio_upto(y, m), tick_factor(m), gap_bound(m), gap_bound(k));
        }
    }
}

/// With all of the low `i` bits set, the accumulation after `i` bits is the
/// all-ones accumulation.
proof fn lemma_ratio_low_ones(x: u32, i: nat)
    requires
        i <= 19,
        forall|m: nat| m < i ==> #[trigger] bit_set(x, m),
    ensures
        ratio_upto(x, i) == ratio_floor(i),
    decreases i,
{
    if i >= 2 {
        lemma_ratio_low_ones(x, (i - 1) as nat);
        assert(bit_set(x, (i - 1) as nat));
    } else if i == 1 {
        assert(bit_set(x, 0));
    }
}

/// With none of the low `i` bits set, the accumulation after `i` bits is
/// still `2^64`.
proof fn lemma_ratio_low_zeros(x: u32, i: nat)
    requires
        i <= 19,
        forall|m: nat| m < i ==> !#[trigger] bit_set(x, m),
    ensures
        ratio_upto(x, i) == 0x1_0000_0000_0000_0000,
    decreases i,
{
    if i >= 2 {
        lemma_ratio_low_zeros(x, (i - 1) as nat);
        assert(!bit_set(x, (i - 1) as nat));
    } else if i == 1 {
        assert(!bit_set(x, 0));
    }
}

/// The accumulated ratio falls strictly from one magnitude to the next,
/// for `x` whose low `j` bits are set and bit `j` clear.
proof fn lemma_ratio_step_at(x: u32, j: u32)
    requires
        j < 19,
        x < 443636,
        x & (((1u32 << j) - 1u32) as u32) == (((1u32 << j) - 1u32) as u32),
        (x >> j) & 1u32 == 0u32,
    ensures
        ratio_upto((x + 1) as u32, 19) < ratio_upto(x, 19),
{
    let y = (x + 1) as u32;
    assert forall|m: nat| m < 19 implies (m < j ==> #[trigger] bit_set(x, m) && !bit_set(y, m))
        && (m == j ==> !bit_set(x, m) && bit_set(y, m))
        && (m > j ==> bit_set(x, m) == bit_set(y, m)) by {
        lemma_increment_bits(x, y, j, m as u32);
    }
    let jn = j as nat;
    assert forall|m: nat| m < jn implies #[trigger] bit_set(x, m) by {
        lemma_increment_bits(x, y, j, m as u32);
    }
    assert forall|m: nat| m < jn implies !#[trigger] bit_set(y, m) by {
        lemma_increment_bits(x, y, j, m as u32);
    }
    assert forall|m: nat| jn < m < 19 implies #[trigger] bit_set(x, m) == bit_set(y, m) by {
        lemma_increment_bits(x, y, j, m as u32);
    }
    lemma_increment_bits(x, y, j, j);
    lemma_ratio_low_ones(x, jn);
    lemma_ratio_low_zeros(y, jn);
    lemma_first_gap(jn);
    assert(!bit_set(x, jn));
    assert(bit_set(y, jn));
    assert(ratio_upto(x, jn + 1) == ratio_floor(jn));
    assert(ratio_upto(y, jn + 1) == tick_factor(jn));
    lemma_ratio_gap(x, y, jn, 19);
}

/// Finds the number of low set bits of `x` from `j` on and applies the
/// step there.
proof fn lemma_ratio_step_from(x: u32, j: u32)
    requires
        j <= 19,
        x < 443636,
        x & (((1u32 << j) - 1u32) as u32) == (((1u32 << j) - 1u32) as u32),
    ensures
        ratio_upto((x + 1) as u32, 19) < ratio_upto(x, 19),
    decreases 19 - j,
{
    if j == 19 {
        lemma_low_bits(x, 0);
        assert(x >= 0x7ffff);
    } else {
        lemma_low_bits(x, j);
        if (x >> j) & 1u32 == 0u32 {
            lemma_ratio_step_at(x, j);
        } else {
            lemma_ratio_step_from(x, (j + 1) as u32);
        }
    }
}

/// The accumulated ratio of a magnitude falls strictly as the magnitude
/// grows by one.
pub proof fn lemma_ratio_decreasing(x: u32)
    requires
        x < 443636,
    ensures
        ratio_upto((x + 1) as u32, 19) < ratio_upto(x, 19),
{
    lemma_low_bits(x, 0);
    lemma_ratio_step_from(x, 0);
}


/// No bit of zero is set.
proof fn lemma_zero_bits(m: u32)
    by (bit_vector)
    requires
        m < 19,
    ensures
        (0u32 >> m) & 1u32 == 0u32,
{
}

/// The accumulated ratio of magnitude zero is `2^64`, and of every positive
/// magnitude at most the first factor, below `2^64`.
proof fn lemma_ratio_positive_magnitude(x: u32)
    requires
        x <= 443636,
    ensures
        x == 0 ==> ratio_upto(x, 19) == 0x1_0000_0000_0000_0000,
        x >= 1 ==> ratio_upto(x, 19) < 0x1_0000_0000_0000_0000,
        ratio_upto(x, 19) >= 76162531,
    decreases x,
{
    lemma_ratio_bounds(x, 19);
    lemma_ratio_floor_positive();
    if x == 0 {
        assert forall|m: nat| m < 19 implies !#[trigger] bit_set(0u32, m) by {
            lemma_zero_bits(m as u32);
        }
        lemma_ratio_low_zeros(0u32, 19);
    } else {
        lemma_ratio_positive_magnitude((x - 1) as u32);
        lemma_ratio_decreasing((x - 1) as u32);
    }
}

/// The sqrt price of a tick is below that of the next tick.
pub proof fn lemma_sqrt_price_increasing(t: i32)
    requires
        MIN_TICK <= t < MAX_TICK,
    ensures
        spec_sqrt_price_at_tick(t) < spec_sqrt_price_at_tick((t + 1) as i32),
{
    let n = 0x1_0000_0000_0000_0000int;
    let mm = u128::MAX as int;
    if t < 0 {
        let x = (-t - 1) as u32;
        assert(tick_abs(t) == x + 1);
        assert(tick_abs((t + 1) as i32) == x);
        lemma_ratio_decreasing(x);
        assert(((x + 1) as u32) as int == tick_abs(t));
    } else {
        let a = ratio_upto(tick_abs(t) as u32, 19);
        let b = ratio_upto(tick_abs((t + 1) as i32) as u32, 19);
        lemma_ratio_positive_magnitude(tick_abs(t) as u32);
        lemma_ratio_positive_magnitude(tick_abs((t + 1) as i32) as u32);
        lemma_ratio_decreasing(t as u32);
        assert(tick_abs((t + 1) as i32) == t + 1);
        assert(b < n);
        assert(b >= 1);
        if t == 0 {
            assert(a == n);
            // (2^128 - 1) / b > 2^64 for b < 2^64.
            assert(mm >= (n + 1) * b) by (nonlinear_arith)
                requires mm == n * n - 1, 1 <= b <= n - 1;
            vstd::arithmetic::div_mod::lemma_div_is_ordered((n + 1) * b, mm, b);
            vstd::arithmetic::div_mod::lemma_div_multiples_vanish(n + 1, b);
        } else {
            assert(b < a < n);
            let qa = mm / a;
            vstd::arithmetic::div_mod::lemma_fundamental_div_mod(mm, a);
            assert(qa * a <= mm) by (nonlinear_arith)
                requires mm == a * qa + mm % a, mm % a >= 0;
            assert((qa + 1) * b <= mm) by (nonlinear_arith)
                requires qa * a <= mm, 1 <= b <= a - 1, a <= n - 1, mm == n * n - 1, qa >= 0;
            vstd::arithmetic::div_mod::lemma_div_is_ordered((qa + 1) * b, mm, b);
            vstd::arithmetic::div_mod::lemma_div_multiples_vanish(qa + 1, b);
        }
    }
}

/// The sqrt price never falls as the tick grows.
pub proof fn lemma_sqrt_price_monotone(a: i32, b: i32)
    requires
        MIN_TICK <= a <= b <= MAX_TICK,
    ensures
        spec_sqrt_price_at_tick(a) <= spec_sqrt_price_at_tick(b),
        a < b ==> spec_sqrt_price_at_tick(a) < spec_sqrt_price_at_tick(b),
    decreases b - a,
{
    if a < b {
        lemma_sqrt_price_monotone(a, (b - 1) as i32);
        lemma_sqrt_price_increasing((b - 1) as i32);
    }
}

/// The bisection between `lo` and `hi` finds the tick whose sqrt price
/// does not exceed the given one while the next tick's does.
proof fn lemma_tick_search(p: u128, lo: int, hi: int)
    requires
        MIN_TICK <= lo < hi <= MAX_TICK,
        spec_sqrt_price_at_tick(lo as i32) <= p < spec_sqrt_price_at_tick(hi as i32),
    ensures
        lo <= tick_search(p, lo, hi) < hi,
        spec_sqrt_price_at_tick(tick_search(p, lo, hi) as i32) <= p,
        p < spec_sqrt_price_at_tick((tick_search(p, lo, hi) + 1) as i32),
    decreases hi - lo,
{
    if hi - lo > 1 {
        let mid = lo + (hi - lo) / 2;
        if spec_sqrt_price_at_tick(mid as i32) <= p {
            lemma_tick_search(p, mid, hi);
        } else {
            lemma_tick_search(p, lo, mid);
        }
    }
}

/// The tick of the sqrt price of a tick is that tick.
pub proof fn lemma_tick_price_roundtrip(t: i32)
    requires
        MIN_TICK <= t < MAX_TICK,
    ensures
        spec_get_sqrt_price_at_tick(t) matches Ok(p) && spec_get_tick_at_sqrt_price(p) == Ok::<i32, crate::error::ProgramError>(t),
{
    lemma_extreme_sqrt_prices();
    lemma_sqrt_price_monotone(MIN_TICK, t);
    lemma_sqrt_price_monotone(t, MAX_TICK);
    let p = spec_sqrt_price_at_tick(t) as u128;
    assert(spec_get_sqrt_price_at_tick(t) == Ok::<u128, crate::error::ProgramError>(p));
    lemma_tick_search(p, MIN_TICK as int, MAX_TICK as int);
    let s = tick_search(p, MIN_TICK as int, MAX_TICK as int);
    if s < t {
        lemma_sqrt_price_monotone((s + 1) as i32, t);
    }
    if s > t {
        lemma_sqrt_price_monotone(t, s as i32);
    }
    assert(s == t);
}

/// The sqrt price of a tick in range lies within the price bounds, strictly
/// inside them away from the end ticks, and is what the checked lookup
/// gives.
pub proof fn lemma_sqrt_price_at_tick_in_range(t: i32)
    requires
        MIN_TICK <= t <= MAX_TICK,
    ensures
        MIN_SQRT_PRICE_X64 <= spec_sqrt_price_at_tick(t) <= MAX_SQRT_PRICE_X64,
        t > MIN_TICK ==> MIN_SQRT_PRICE_X64 < spec_sqrt_price_at_tick(t),
        t < MAX_TICK ==> spec_sqrt_price_at_tick(t) < MAX_SQRT_PRICE_X64,
        spec_get_sqrt_price_at_tick(t) == Ok::<u128, crate::error::ProgramError>(spec_sqrt_price_at_tick(t) as u128),
{
    lemma_extreme_sqrt_prices();
    lemma_sqrt_price_monotone(MIN_TICK, t);
    lemma_sqrt_price_monotone(t, MAX_TICK);
}

/// The tick the lookup gives for a sqrt price is the greatest tick whose
/// sqrt price does not exceed it.
pub proof fn lemma_tick_at_sqrt_price_bounds(price: u128)
    ensures
        spec_get_tick_at_sqrt_price(price) matches Ok(t) ==> {
            &&& MIN_TICK <= t < MAX_TICK
            &&& spec_sqrt_price_at_tick(t) <= price
            &&& price < spec_sqrt_price_at_tick((t + 1) as i32)
        },
{
    if MIN_SQRT_PRICE_X64 <= price < MAX_SQRT_PRICE_X64 {
        lemma_extreme_sqrt_prices();
        lemma_tick_search(price, MIN_TICK as int, MAX_TICK as int);
    }
}

} // verus!
