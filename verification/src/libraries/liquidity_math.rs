//! Token amounts spanned by a liquidity over a sqrt-price interval, and
//! signed liquidity updates.

use crate::error::{spec_program_error, ErrorCode, ProgramError, Result};
use crate::libraries::arith::{ceil_div, lemma_ceil_div_bounds};
use crate::libraries::big_num::{b128, b192, b256, b64, lemma_limbs4_bounds, U256};
use crate::libraries::fixed_point_64::Q64;
use crate::libraries::full_math::MulDiv;
use vstd::prelude::*;

verus! {

/// `x + y` for a signed liquidity change `y`, failing where the result
/// leaves `u128` (below zero: `LiquiditySubValueErr`; above the maximum:
/// `LiquidityAddValueErr`).
pub open spec fn spec_add_delta(x: u128, y: i128) -> Result<u128> {
    if y < 0 {
        if x + y < 0 {
            Err(spec_program_error(ErrorCode::LiquiditySubValueErr))
        } else {
            Ok((x + y) as u128)
        }
    } else {
        if x + y > u128::MAX {
            Err(spec_program_error(ErrorCode::LiquidityAddValueErr))
        } else {
            Ok((x + y) as u128)
        }
    }
}

/// Applies a signed liquidity change.
pub fn add_delta(x: u128, y: i128) -> (r: Result<u128>)
    ensures
        r == spec_add_delta(x, y),
{
    if y < 0 {
        let magnitude: u128 = (-(y + 1)) as u128 + 1;
        match x.checked_sub(magnitude) {
            Some(z) => Ok(z),
            None => Err(ProgramError::from_code(ErrorCode::LiquiditySubValueErr)),
        }
    } else {
        match x.checked_add(y as u128) {
            Some(z) => Ok(z),
            None => Err(ProgramError::from_code(ErrorCode::LiquidityAddValueErr)),
        }
    }
}

/// The amount of token 0 that `liquidity` holds between two sqrt prices
/// (in either order), `L * 2^64 * (hi - lo) / hi / lo`, each division
/// rounded up or down as `round_up` says.
pub open spec fn spec_delta_amount_0(a: u128, b: u128, liquidity: u128, round_up: bool) -> int {
    let lo = if a > b { b } else { a };
    let hi = if a > b { a } else { b };
    let num = liquidity * b64() * (hi - lo);
    if round_up {
        ceil_div(ceil_div(num, hi as int), lo as int)
    } else {
        num / (hi as int) / (lo as int)
    }
}

/// The amount of token 1 that `liquidity` holds between two sqrt prices
/// (in either order), `L * (hi - lo) / 2^64`, rounded as `round_up` says.
pub open spec fn spec_delta_amount_1(a: u128, b: u128, liquidity: u128, round_up: bool) -> int {
    let lo = if a > b { b } else { a };
    let hi = if a > b { a } else { b };
    let num = liquidity * (hi - lo);
    if round_up {
        ceil_div(num, b64())
    } else {
        num / b64()
    }
}

/// Result of [`get_delta_amount_0_unsigned`]: `ZeroSqrtPrice` for a zero
/// lower price, `MaxTokenOverflow` when the amount exceeds `u64`.
pub open spec fn spec_get_delta_amount_0(a: u128, b: u128, liquidity: u128, round_up: bool) -> Result<u64> {
    let lo = if a > b { b } else { a };
    if lo == 0 {
        Err(spec_program_error(ErrorCode::ZeroSqrtPrice))
    } else if spec_delta_amount_0(a, b, liquidity, round_up) > u64::MAX {
        Err(spec_program_error(ErrorCode::MaxTokenOverflow))
    } else {
        Ok(spec_delta_amount_0(a, b, liquidity, round_up) as u64)
    }
}

/// Result of [`get_delta_amount_1_unsigned`]: `MaxTokenOverflow` when the
/// amount exceeds `u64`.
pub open spec fn spec_get_delta_amount_1(a: u128, b: u128, liquidity: u128, round_up: bool) -> Result<u64> {
    if spec_delta_amount_1(a, b, liquidity, round_up) > u64::MAX {
        Err(spec_program_error(ErrorCode::MaxTokenOverflow))
    } else {
        Ok(spec_delta_amount_1(a, b, liquidity, round_up) as u64)
    }
}

/// `ceil(a * b / d) <= b` and `floor(a * b / d) <= b` when `a <= d`.
pub proof fn lemma_scaled_down(a: int, b: int, d: int)
    requires
        0 <= a <= d,
        d > 0,
        b >= 0,
    ensures
        0 <= a * b / d <= b,
        0 <= ceil_div(a * b, d) <= b,
{
    assert(0 <= a * b <= d * b) by (nonlinear_arith)
        requires 0 <= a <= d, b >= 0;
    lemma_ceil_div_bounds(a * b, d);
    assert(ceil_div(a * b, d) <= b) by (nonlinear_arith)
        requires
            d * (ceil_div(a * b, d) - 1) < a * b || a * b == 0,
            a * b <= d * b,
            d > 0,
            ceil_div(a * b, d) >= 0,
            a * b / d <= ceil_div(a * b, d),
            a * b >= 0,
    {
        if a * b == 0 {
            vstd::arithmetic::div_mod::lemma_div_of0(d);
            assert((0 + d - 1) / d == 0) by {
                vstd::arithmetic::div_mod::lemma_basic_div(d - 1, d);
            }
        }
    }
    vstd::arithmetic::div_mod::lemma_div_pos_is_pos(a * b, d);
}

/// The token-0 amount of a liquidity over a price interval.
pub fn get_delta_amount_0_unsigned(
    sqrt_ratio_a_x64: u128,
    sqrt_ratio_b_x64: u128,
    liquidity: u128,
    round_up: bool,
) -> (r: Result<u64>)
    ensures
        r == spec_get_delta_amount_0(sqrt_ratio_a_x64, sqrt_ratio_b_x64, liquidity, round_up),
{
    let (lo, hi) = if sqrt_ratio_a_x64 > sqrt_ratio_b_x64 {
        (sqrt_ratio_b_x64, sqrt_ratio_a_x64)
    } else {
        (sqrt_ratio_a_x64, sqrt_ratio_b_x64)
    };
    if lo == 0 {
        return Err(ProgramError::from_code(ErrorCode::ZeroSqrtPrice));
    }
    proof {
        assert(liquidity * b64() < b192()) by (nonlinear_arith)
            requires 0 <= liquidity < b128(), b192() == b128() * b64(), b64() > 0;
        assert(b192() < b256()) by (nonlinear_arith)
            requires b192() == b128() * b64(), b256() == b128() * b128(), b64() < b128();
    }
    let numerator_1 = U256::from_u128(liquidity).mul(U256::from_u128(Q64));
    let numerator_2 = U256::from_u128(hi - lo);
    let denom_hi = U256::from_u128(hi);
    let denom_lo = U256::from_u128(lo);
    let ghost n1 = numerator_1@;
    let ghost num = n1 * (hi - lo);
    proof {
        assert(num == liquidity * b64() * (hi - lo));
        lemma_scaled_down(hi - lo, n1, hi as int);
        assert(num == (hi - lo) * n1) by (nonlinear_arith) requires num == n1 * (hi - lo);
    }
    let result = if round_up {
        let first = numerator_1.mul_div_ceil(numerator_2, denom_hi);
        let first = match first {
            Some(v) => v,
            None => { assert(false); U256::zero() },
        };
        proof {
            lemma_limbs4_bounds(first.0);
            lemma_scaled_down(1, first@, lo as int);
            assert(first@ * 1 == first@);
        }
        match first.mul_div_ceil(U256::from_u64(1), denom_lo) {
            Some(v) => v,
            None => { assert(false); U256::zero() },
        }
    } else {
        let first = numerator_1.mul_div_floor(numerator_2, denom_hi);
        let first = match first {
            Some(v) => v,
            None => { assert(false); U256::zero() },
        };
        first.div(denom_lo)
    };
    proof {
        if round_up {
            assert(result@ == spec_delta_amount_0(sqrt_ratio_a_x64, sqrt_ratio_b_x64, liquidity, round_up));
        }
        lemma_limbs4_bounds(result.0);
    }
    if U256::from_u64(u64::MAX).lt(&result) {
        Err(ProgramError::from_code(ErrorCode::MaxTokenOverflow))
    } else {
        Ok(result.as_u64())
    }
}

/// The token-1 amount of a liquidity over a price interval.
pub fn get_delta_amount_1_unsigned(
    sqrt_ratio_a_x64: u128,
    sqrt_ratio_b_x64: u128,
    liquidity: u128,
    round_up: bool,
) -> (r: Result<u64>)
    ensures
        r == spec_get_delta_amount_1(sqrt_ratio_a_x64, sqrt_ratio_b_x64, liquidity, round_up),
{
    let (lo, hi) = if sqrt_ratio_a_x64 > sqrt_ratio_b_x64 {
        (sqrt_ratio_b_x64, sqrt_ratio_a_x64)
    } else {
        (sqrt_ratio_a_x64, sqrt_ratio_b_x64)
    };
    let l = U256::from_u128(liquidity);
    let diff = U256::from_u128(hi - lo);
    let q = U256::from_u128(Q64);
    proof {
        assert(0 <= liquidity * (hi - lo) <= (b128() - 1) * (b128() - 1)) by (nonlinear_arith)
            requires 0 <= liquidity < b128(), 0 <= hi - lo < b128();
        assert((b128() - 1) * (b128() - 1) < b256()) by (nonlinear_arith)
            requires b256() == b128() * b128(), b128() > 1;
        lemma_scaled_down(1, liquidity * (hi - lo), b64());
        assert(1 * (liquidity * (hi - lo)) == liquidity * (hi - lo));
        vstd::arithmetic::div_mod::lemma_div_is_ordered_by_denominator(liquidity * (hi - lo), 1, b64());
        lemma_ceil_div_bounds(liquidity * (hi - lo), b64());
    }
    let result = if round_up {
        match l.mul_div_ceil(diff, q) {
            Some(v) => v,
            None => { assert(false); U256::zero() },
        }
    } else {
        match l.mul_div_floor(diff, q) {
            Some(v) => v,
            None => { assert(false); U256::zero() },
        }
    };
    if U256::from_u64(u64::MAX).lt(&result) {
        Err(ProgramError::from_code(ErrorCode::MaxTokenOverflow))
    } else {
        Ok(result.as_u64())
    }
}

} // verus!
