//! Integer facts about rounded division used throughout the crate.

use vstd::arithmetic::div_mod::*;
use vstd::arithmetic::mul::*;
use vstd::prelude::*;

verus! {

/// Integer division rounding up.
pub open spec fn ceil_div(n: int, d: int) -> int {
    (n + d - 1) / d
}

/// Rounding up adds one to the floor exactly when the division is inexact.
pub proof fn lemma_ceil_div_split(n: int, d: int)
    requires
        n >= 0,
        d > 0,
    ensures
        ceil_div(n, d) == n / d + (if n % d == 0 { 0int } else { 1int }),
        n % d == 0 ==> ceil_div(n, d) == n / d,
        n % d != 0 ==> ceil_div(n, d) == n / d + 1,
{
    let q = n / d;
    let r = n % d;
    lemma_fundamental_div_mod(n, d);
    if r == 0 {
        lemma_div_multiples_vanish_fancy(q, d - 1, d);
    } else {
        lemma_mul_is_distributive_add(d, q, 1);
        lemma_div_multiples_vanish_fancy(q + 1, r - 1, d);
    }
}

/// Rounding up never falls below the exact quotient: `d * ceil(n/d) >= n`,
/// and it is the least such value: `d * (ceil(n/d) - 1) < n`.
pub proof fn lemma_ceil_div_bounds(n: int, d: int)
    requires
        n >= 0,
        d > 0,
    ensures
        d * ceil_div(n, d) >= n,
        d * (ceil_div(n, d) - 1) < n || n == 0,
        ceil_div(n, d) >= 0,
        n / d <= ceil_div(n, d) <= n / d + 1,
{
    lemma_ceil_div_split(n, d);
    lemma_fundamental_div_mod(n, d);
    lemma_div_pos_is_pos(n, d);
    lemma_mul_is_distributive_add(d, n / d, 1);
    lemma_mul_is_distributive_sub(d, n / d, 1);
}

/// Floor division of a negative number by a positive one, in terms of the
/// division of its magnitude.
pub proof fn lemma_floor_div_neg(m: int, n: int)
    requires
        m >= 0,
        n > 0,
    ensures
        (-m) / n == -(m / n) - (if m % n == 0 { 0int } else { 1int }),
        (-m) % n == 0 <==> m % n == 0,
{
    let q = m / n;
    let r = m % n;
    lemma_fundamental_div_mod(m, n);
    if r == 0 {
        lemma_mul_unary_negation(n, q);
        assert(-m == n * (-q));
        lemma_div_multiples_vanish(-q, n);
        lemma_mod_multiples_basic(-q, n);
        lemma_mul_is_commutative(n, -q);
    } else {
        assert(-m == n * (-q - 1) + (n - r)) by (nonlinear_arith)
            requires m == n * q + r;
        lemma_div_multiples_vanish_fancy(-q - 1, n - r, n);
        lemma_fundamental_div_mod_converse_mod(-m, n, -q - 1, n - r);
    }
}
/// The multiple of `n` that floor division rounds `t` down to lies in
/// `(t - n, t]`.
pub proof fn lemma_floor_multiple_bounds(t: int, n: int)
    requires
        n > 0,
    ensures
        (t / n) * n <= t,
        (t / n) * n > t - n,
{
    lemma_fundamental_div_mod(t, n);
    lemma_mul_is_commutative(n, t / n);
}
/// Rounding up `n / d` gives at most `k` when `n <= k * d`, and at least
/// `k` when `n >= k * d`.
pub proof fn lemma_ceil_div_compare(n: int, d: int, k: int)
    requires
        n >= 0,
        d > 0,
    ensures
        n <= k * d ==> ceil_div(n, d) <= k,
        n >= k * d ==> ceil_div(n, d) >= k,
{
    lemma_ceil_div_bounds(n, d);
    let c = ceil_div(n, d);
    if n <= k * d && n > 0 {
        assert(d * (c - 1) < k * d);
        assert(c - 1 < k) by (nonlinear_arith) requires d * (c - 1) < k * d, d > 0;
    }
    if n <= k * d && n == 0 {
        assert(c == 0) by {
            lemma_ceil_div_split(n, d);
        }
        assert(k * d >= 0);
        assert(k >= 0) by (nonlinear_arith) requires k * d >= 0, d > 0;
    }
    if n >= k * d {
        assert(d * c >= k * d);
        assert(c >= k) by (nonlinear_arith) requires d * c >= k * d, d > 0;
    }
}

} // verus!
