//! The sqrt price reached after adding or removing an amount of one token
//! against a liquidity.

use crate::error::{spec_program_error, ErrorCode, ProgramError, Result};
use crate::libraries::arith::{ceil_div, lemma_ceil_div_bounds, lemma_ceil_div_compare, lemma_ceil_div_split};
use crate::libraries::big_num::{b128, b192, b256, b64, lemma_limbs4_bounds, U256};
use crate::libraries::fixed_point_64::Q64;
use crate::libraries::full_math::MulDiv;
use crate::libraries::liquidity_math::lemma_scaled_down;
use vstd::prelude::*;

verus! {

/// The sqrt price after `amount` of token 0 is added to (or, for `!add`,
/// taken from) the pool, rounded up:
/// `ceil(L * 2^64 * P / (L * 2^64 ± amount * P))`. Removing fails with
/// `CalculateOverflow` where the pool does not hold that much, or where the
/// price leaves `u128`.
pub open spec fn spec_next_sqrt_price_from_amount_0_rounding_up(
    sqrt_price_x64: u128,
    liquidity: u128,
    amount: u64,
    add: bool,
) -> Result<u128> {
    let n1 = liquidity * b64();
    let product = amount * sqrt_price_x64;
    if amount == 0 {
        Ok(sqrt_price_x64)
    } else if add {
        Ok(ceil_div(n1 * sqrt_price_x64, n1 + product) as u128)
    } else if product >= n1 {
        Err(spec_program_error(ErrorCode::CalculateOverflow))
    } else if ceil_div(n1 * sqrt_price_x64, n1 - product) > u128::MAX {
        Err(spec_program_error(ErrorCode::CalculateOverflow))
    } else {
        Ok(ceil_div(n1 * sqrt_price_x64, n1 - product) as u128)
    }
}

/// The sqrt price after `amount` of token 1 is added to (or, for `!add`,
/// taken from) the pool, rounded down: `P + floor(amount * 2^64 / L)` or
/// `P - ceil(amount * 2^64 / L)`, failing with `CalculateOverflow` where the
/// result leaves `u128`.
pub open spec fn spec_next_sqrt_price_from_amount_1_rounding_down(
    sqrt_price_x64: u128,
    liquidity: u128,
    amount: u64,
    add: bool,
) -> Result<u128> {
    if add {
        let q = amount * b64() / (liquidity as int);
        if sqrt_price_x64 + q > u128::MAX {
            Err(spec_program_error(ErrorCode::CalculateOverflow))
        } else {
            Ok((sqrt_price_x64 + q) as u128)
        }
    } else {
        let q = ceil_div(amount * b64(), liquidity as int);
        if sqrt_price_x64 - q < 0 {
            Err(spec_program_error(ErrorCode::CalculateOverflow))
        } else {
            Ok((sqrt_price_x64 - q) as u128)
        }
    }
}

/// The sqrt price after an input amount enters the pool.
pub open spec fn spec_next_sqrt_price_from_input(
    sqrt_price_x64: u128,
    liquidity: u128,
    amount_in: u64,
    zero_for_one: bool,
) -> Result<u128> {
    if sqrt_price_x64 == 0 {
        Err(spec_program_error(ErrorCode::ZeroSqrtPrice))
    } else if liquidity == 0 {
        Err(spec_program_error(ErrorCode::ZeroLiquidity))
    } else if zero_for_one {
        spec_next_sqrt_price_from_amount_0_rounding_up(sqrt_price_x64, liquidity, amount_in, true)
    } else {
        spec_next_sqrt_price_from_amount_1_rounding_down(sqrt_price_x64, liquidity, amount_in, true)
    }
}

/// The sqrt price after an output amount leaves the pool.
pub open spec fn spec_next_sqrt_price_from_output(
    sqrt_price_x64: u128,
    liquidity: u128,
    amount_out: u64,
    zero_for_one: bool,
) -> Result<u128> {
    if sqrt_price_x64 == 0 {
        Err(spec_program_error(ErrorCode::ZeroSqrtPrice))
    } else if liquidity == 0 {
        Err(spec_program_error(ErrorCode::ZeroLiquidity))
    } else if zero_for_one {
        spec_next_sqrt_price_from_amount_1_rounding_down(sqrt_price_x64, liquidity, amount_out, false)
    } else {
        spec_next_sqrt_price_from_amount_0_rounding_up(sqrt_price_x64, liquidity, amount_out, false)
    }
}

/// Moves the price by an amount of token 0.
pub fn get_next_sqrt_price_from_amount_0_rounding_up(
    sqrt_price_x64: u128,
    liquidity: u128,
    amount: u64,
    add: bool,
) -> (r: Result<u128>)
    requires
        sqrt_price_x64 > 0,
    ensures
        r == spec_next_sqrt_price_from_amount_0_rounding_up(sqrt_price_x64, liquidity, amount, add),
{
    if amount == 0 {
        return Ok(sqrt_price_x64);
    }
    proof {
        assert(liquidity * b64() < b192()) by (nonlinear_arith)
            requires 0 <= liquidity < b128(), b192() == b128() * b64(), b64() > 0;
        assert(0 < amount * sqrt_price_x64 < b192()) by (nonlinear_arith)
            requires 0 < amount < b64(), 0 < sqrt_price_x64 < b128(), b192() == b128() * b64();
        assert(2 * b192() < b256()) by (nonlinear_arith)
            requires b192() == b128() * b64(), b256() == b128() * b128(), 2 * b64() < b128();
    }
    let numerator_1 = U256::from_u128(liquidity).mul(U256::from_u128(Q64));
    let product = U256::from_u64(amount).mul(U256::from_u128(sqrt_price_x64));
    let price = U256::from_u128(sqrt_price_x64);
    if add {
        let denominator = numerator_1.add(product);
        proof {
            lemma_scaled_down(numerator_1@, sqrt_price_x64 as int, denominator@);
            assert(numerator_1@ * sqrt_price_x64 == sqrt_price_x64 * numerator_1@) by (nonlinear_arith);
        }
        let r = match numerator_1.mul_div_ceil(price, denominator) {
            Some(v) => v,
            None => { assert(false); U256::zero() },
        };
        Ok(r.as_u128())
    } else {
        if !product.lt(&numerator_1) {
            return Err(ProgramError::from_code(ErrorCode::CalculateOverflow));
        }
        let denominator = numerator_1.sub(product);
        match numerator_1.mul_div_ceil(price, denominator) {
            Some(v) => {
                if U256::from_u128(u128::MAX).lt(&v) {
                    Err(ProgramError::from_code(ErrorCode::CalculateOverflow))
                } else {
                    Ok(v.as_u128())
                }
            },
            None => {
                proof {
                    lemma_ceil_div_bounds(numerator_1@ * sqrt_price_x64, denominator@);
                }
                Err(ProgramError::from_code(ErrorCode::CalculateOverflow))
            },
        }
    }
}

/// Moves the price by an amount of token 1.
pub fn get_next_sqrt_price_from_amount_1_rounding_down(
    sqrt_price_x64: u128,
    liquidity: u128,
    amount: u64,
    add: bool,
) -> (r: Result<u128>)
    requires
        liquidity > 0,
    ensures
        r == spec_next_sqrt_price_from_amount_1_rounding_down(sqrt_price_x64, liquidity, amount, add),
{
    proof {
        assert(amount * b64() < b128()) by (nonlinear_arith)
            requires 0 <= amount < b64(), b128() == b64() * b64();
    }
    let shifted: u128 = (amount as u128) * Q64;
    if add {
        let quotient = shifted / liquidity;
        match sqrt_price_x64.checked_add(quotient) {
            Some(v) => Ok(v),
            None => Err(ProgramError::from_code(ErrorCode::CalculateOverflow)),
        }
    } else {
        let q = shifted / liquidity;
        let rem = shifted % liquidity;
        proof {
            lemma_ceil_div_split(shifted as int, liquidity as int);
            vstd::arithmetic::div_mod::lemma_fundamental_div_mod(shifted as int, liquidity as int);
            if rem != 0 {
                assert(liquidity >= 2);
                assert(q * 2 <= q * liquidity) by (nonlinear_arith) requires liquidity >= 2, q >= 0;
            }
        }
        let quotient = if rem != 0 { q + 1 } else { q };
        match sqrt_price_x64.checked_sub(quotient) {
            Some(v) => Ok(v),
            None => Err(ProgramError::from_code(ErrorCode::CalculateOverflow)),
        }
    }
}

/// The sqrt price after an input amount enters the pool.
pub fn get_next_sqrt_price_from_input(
    sqrt_price_x64: u128,
    liquidity: u128,
    amount_in: u64,
    zero_for_one: bool,
) -> (r: Result<u128>)
    ensures
        r == spec_next_sqrt_price_from_input(sqrt_price_x64, liquidity, amount_in, zero_for_one),
{
    if sqrt_price_x64 == 0 {
        return Err(ProgramError::from_code(ErrorCode::ZeroSqrtPrice));
    }
    if liquidity == 0 {
        return Err(ProgramError::from_code(ErrorCode::ZeroLiquidity));
    }
    if zero_for_one {
        get_next_sqrt_price_from_amount_0_rounding_up(sqrt_price_x64, liquidity, amount_in, true)
    } else {
        get_next_sqrt_price_from_amount_1_rounding_down(sqrt_price_x64, liquidity, amount_in, true)
    }
}

/// The sqrt price after an output amount leaves the pool.
pub fn get_next_sqrt_price_from_output(
    sqrt_price_x64: u128,
    liquidity: u128,
    amount_out: u64,
    zero_for_one: bool,
) -> (r: Result<u128>)
    ensures
        r == spec_next_sqrt_price_from_output(sqrt_price_x64, liquidity, amount_out, zero_for_one),
{
    if sqrt_price_x64 == 0 {
        return Err(ProgramError::from_code(ErrorCode::ZeroSqrtPrice));
    }
    if liquidity == 0 {
        return Err(ProgramError::from_code(ErrorCode::ZeroLiquidity));
    }
    if zero_for_one {
        get_next_sqrt_price_from_amount_1_rounding_down(sqrt_price_x64, liquidity, amount_out, false)
    } else {
        get_next_sqrt_price_from_amount_0_rounding_up(sqrt_price_x64, liquidity, amount_out, false)
    }
}

/// Adding token 0 lowers the price and adding token 1 raises it; taking
/// token 1 out lowers it and taking token 0 out raises it: the price an
/// input reaches lies below the current one for a zero-for-one swap and
/// above it otherwise, and so does the price an output reaches.
pub proof fn lemma_next_sqrt_price_direction(sqrt_price_x64: u128, liquidity: u128, amount: u64, zero_for_one: bool)
    ensures
        spec_next_sqrt_price_from_input(sqrt_price_x64, liquidity, amount, zero_for_one) matches Ok(n)
            ==> (if zero_for_one { n <= sqrt_price_x64 } else { n >= sqrt_price_x64 }),
        spec_next_sqrt_price_from_output(sqrt_price_x64, liquidity, amount, zero_for_one) matches Ok(n)
            ==> (if zero_for_one { n <= sqrt_price_x64 } else { n >= sqrt_price_x64 }),
{
    let p = sqrt_price_x64 as int;
    let n1 = liquidity * b64();
    let product = amount * sqrt_price_x64;
    if sqrt_price_x64 > 0 && liquidity > 0 && amount > 0 {
        assert(liquidity * b64() > 0) by (nonlinear_arith) requires liquidity > 0, b64() > 0;
        assert(amount * sqrt_price_x64 > 0) by (nonlinear_arith) requires amount > 0, sqrt_price_x64 > 0;
        assert(n1 * p >= 0) by (nonlinear_arith) requires n1 > 0, p > 0;
        // Token 0 in: n1 * p <= p * (n1 + product).
        assert(n1 * p <= p * (n1 + product)) by (nonlinear_arith) requires n1 > 0, p > 0, product > 0;
        lemma_ceil_div_compare(n1 * p, n1 + product, p);
        // Token 0 out: n1 * p >= p * (n1 - product) where the difference is positive.
        if product < n1 {
            assert(n1 * p >= p * (n1 - product)) by (nonlinear_arith) requires n1 > 0, p > 0, product > 0;
            lemma_ceil_div_compare(n1 * p, n1 - product, p);
        }
        // Token 1 in or out: the quotient is non-negative.
        assert(amount * b64() >= 0) by (nonlinear_arith) requires amount > 0, b64() > 0;
        vstd::arithmetic::div_mod::lemma_div_pos_is_pos(amount * b64(), liquidity as int);
        lemma_ceil_div_bounds(amount * b64(), liquidity as int);
    }
    if sqrt_price_x64 > 0 && liquidity > 0 && amount == 0 {
        assert(amount * b64() == 0);
        assert(0int / (liquidity as int) == 0);
        lemma_ceil_div_bounds(0, liquidity as int);
        assert(ceil_div(0, liquidity as int) == 0) by {
            lemma_ceil_div_split(0, liquidity as int);
        }
    }
}

} // verus!
