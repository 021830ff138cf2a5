//! One step of a swap within a single price range: how far the price moves,
//! and the input, output and fee amounts of that move.

use crate::error::{spec_program_error, ErrorCode, ProgramError, Result};
use crate::libraries::big_num::b64;
use crate::libraries::full_math::{spec_mul_div_ceil, spec_mul_div_floor, MulDiv};
use crate::libraries::liquidity_math::{
    get_delta_amount_0_unsigned, get_delta_amount_1_unsigned, spec_delta_amount_0, spec_delta_amount_1,
    spec_get_delta_amount_0, spec_get_delta_amount_1,
};
use crate::libraries::arith::{ceil_div, lemma_ceil_div_bounds, lemma_ceil_div_compare};
use crate::libraries::sqrt_price_math::{
    get_next_sqrt_price_from_input, get_next_sqrt_price_from_output, lemma_next_sqrt_price_direction,
    spec_next_sqrt_price_from_input, spec_next_sqrt_price_from_output,
};
use crate::states::config::FEE_RATE_DENOMINATOR_VALUE;
use vstd::prelude::*;

verus! {

/// Outcome of one swap step.
#[derive(Debug, Clone, Copy, PartialEq, Eq, Structural)]
pub struct SwapComputationResult {
    pub sqrt_price_next_x64: u128,
    pub amount_in: u64,
    pub amount_out: u64,
    pub fee_amount: u64,
}

impl SwapComputationResult {
    /// A step that ends at `sqrt_price_next_x64` and moves no tokens.
    pub fn new(sqrt_price_next_x64: u128) -> (r: Self)
        ensures
            r == (SwapComputationResult {
                sqrt_price_next_x64,
                amount_in: 0,
                amount_out: 0,
                fee_amount: 0,
            }),
    {
        Self { sqrt_price_next_x64, amount_in: 0, amount_out: 0, fee_amount: 0 }
    }
}

/// The error returned where an intermediate amount overflows.
pub open spec fn calc_overflow() -> ProgramError {
    spec_program_error(ErrorCode::CalculateOverflow)
}

/// The amount needed to move the price all the way to the target (input for
/// an exact-input step, output for an exact-output step): `None` when it
/// exceeds `u64`; other failures become `SqrtPriceLimitOverflow`.
pub open spec fn spec_amount_in_range(
    cur: u128,
    tgt: u128,
    liquidity: u128,
    zero_for_one: bool,
    is_base_input: bool,
) -> Result<Option<u64>> {
    let r = if is_base_input {
        if zero_for_one {
            spec_get_delta_amount_0(tgt, cur, liquidity, true)
        } else {
            spec_get_delta_amount_1(cur, tgt, liquidity, true)
        }
    } else {
        if zero_for_one {
            spec_get_delta_amount_1(tgt, cur, liquidity, false)
        } else {
            spec_get_delta_amount_0(cur, tgt, liquidity, false)
        }
    };
    match r {
        Ok(v) => Ok(Some(v)),
        Err(e) => if e == spec_program_error(ErrorCode::MaxTokenOverflow) {
            Ok(None)
        } else {
            Err(spec_program_error(ErrorCode::SqrtPriceLimitOverflow))
        },
    }
}

/// The amount of the specified token that may move the price: for exact
/// input the amount net of a fee charged on input; for exact output the
/// amount itself, a fee charged on output being part of it.
pub open spec fn spec_amount_for_price(amount_remaining: u64, fee_rate: u32, is_base_input: bool, is_fee_on_input: bool) -> Option<int> {
    let d = FEE_RATE_DENOMINATOR_VALUE as int;
    if is_base_input && is_fee_on_input {
        spec_mul_div_floor(amount_remaining as int, d - fee_rate, d, b64())
    } else {
        Some(amount_remaining as int)
    }
}

/// The price a step ends at: the target where the available amount covers
/// the whole range, else the price that amount reaches.
pub open spec fn spec_step_next_price(
    cur: u128,
    tgt: u128,
    liquidity: u128,
    afp: int,
    range: Option<u64>,
    is_base_input: bool,
    zero_for_one: bool,
) -> Result<u128> {
    if range is Some && afp >= range->0 {
        Ok(tgt)
    } else if is_base_input {
        spec_next_sqrt_price_from_input(cur, liquidity, afp as u64, zero_for_one)
    } else {
        spec_next_sqrt_price_from_output(cur, liquidity, afp as u64, zero_for_one)
    }
}

/// The input amount of a step that ends at `next`: kept from the range
/// computation for an exact-input step that reached the target, else the
/// token amount between the two prices, rounded up.
pub open spec fn spec_step_amount_in(cur: u128, next: u128, liquidity: u128, first: u64, max: bool, is_base_input: bool, zero_for_one: bool) -> Result<u64> {
    if max && is_base_input {
        Ok(if is_base_input { first } else { 0 })
    } else if zero_for_one {
        spec_get_delta_amount_0(next, cur, liquidity, true)
    } else {
        spec_get_delta_amount_1(cur, next, liquidity, true)
    }
}

/// The output amount of a step that ends at `next`: kept from the range
/// computation for an exact-output step that reached the target, else the
/// token amount between the two prices, rounded down.
pub open spec fn spec_step_amount_out(cur: u128, next: u128, liquidity: u128, first: u64, max: bool, is_base_input: bool, zero_for_one: bool) -> Result<u64> {
    if max && !is_base_input {
        Ok(first)
    } else if zero_for_one {
        spec_get_delta_amount_1(next, cur, liquidity, false)
    } else {
        spec_get_delta_amount_0(cur, next, liquidity, false)
    }
}

/// The fee of a step and the final amounts, from the gross amounts.
pub open spec fn spec_step_fees(
    next: u128,
    tgt: u128,
    amount_in: u64,
    amount_out: u64,
    amount_remaining: u64,
    fee_rate: u32,
    is_base_input: bool,
    is_fee_on_input: bool,
) -> Result<SwapComputationResult> {
    let d = FEE_RATE_DENOMINATOR_VALUE as int;
    let max = tgt == next;
    if is_base_input {
        if is_fee_on_input {
            if next != tgt {
                if amount_remaining < amount_in {
                    Err(calc_overflow())
                } else {
                    Ok(SwapComputationResult { sqrt_price_next_x64: next, amount_in, amount_out, fee_amount: (amount_remaining - amount_in) as u64 })
                }
            } else {
                match spec_mul_div_ceil(amount_in as int, fee_rate as int, d - fee_rate, b64()) {
                    None => Err(calc_overflow()),
                    Some(f) => Ok(SwapComputationResult { sqrt_price_next_x64: next, amount_in, amount_out, fee_amount: f as u64 }),
                }
            }
        } else {
            match spec_mul_div_ceil(amount_out as int, fee_rate as int, d, b64()) {
                None => Err(calc_overflow()),
                Some(f) => if amount_out < f {
                    Err(calc_overflow())
                } else {
                    Ok(SwapComputationResult {
                        sqrt_price_next_x64: next,
                        amount_in: if !max { amount_remaining } else { amount_in },
                        amount_out: (amount_out - f) as u64,
                        fee_amount: f as u64,
                    })
                },
            }
        }
    } else {
        if is_fee_on_input {
            match spec_mul_div_ceil(amount_in as int, fee_rate as int, d - fee_rate, b64()) {
                None => Err(calc_overflow()),
                Some(f) => Ok(SwapComputationResult {
                    sqrt_price_next_x64: next,
                    amount_in,
                    amount_out: if amount_out < amount_remaining { amount_out } else { amount_remaining },
                    fee_amount: f as u64,
                }),
            }
        } else {
            match spec_mul_div_ceil(amount_out as int, fee_rate as int, d, b64()) {
                None => Err(calc_overflow()),
                Some(f) => if amount_out < f {
                    Err(calc_overflow())
                } else if amount_out - f > amount_remaining {
                    Ok(SwapComputationResult {
                        sqrt_price_next_x64: next,
                        amount_in,
                        amount_out: amount_remaining,
                        fee_amount: (amount_out - amount_remaining) as u64,
                    })
                } else {
                    Ok(SwapComputationResult {
                        sqrt_price_next_x64: next,
                        amount_in,
                        amount_out: (amount_out - f) as u64,
                        fee_amount: f as u64,
                    })
                },
            }
        }
    }
}

/// Where a step ends and the amount the range computation gave (zero when
/// it did not fit in `u64`).
pub open spec fn spec_step_price(
    cur: u128,
    tgt: u128,
    liquidity: u128,
    amount_remaining: u64,
    fee_rate: u32,
    is_base_input: bool,
    zero_for_one: bool,
    is_fee_on_input: bool,
) -> Result<(u128, u64)> {
    match spec_amount_for_price(amount_remaining, fee_rate, is_base_input, is_fee_on_input) {
        None => Err(calc_overflow()),
        Some(afp) => match spec_amount_in_range(cur, tgt, liquidity, zero_for_one, is_base_input) {
            Err(e) => Err(e),
            Ok(range) => {
                let first: u64 = match range { Some(v) => v, None => 0 };
                match spec_step_next_price(cur, tgt, liquidity, afp, range, is_base_input, zero_for_one) {
                    Err(e) => Err(e),
                    Ok(next) => Ok((next, first)),
                }
            },
        },
    }
}

/// The gross input and output amounts of a step ending at `next`.
pub open spec fn spec_step_amounts(cur: u128, next: u128, tgt: u128, liquidity: u128, first: u64, is_base_input: bool, zero_for_one: bool) -> Result<(u64, u64)> {
    let max = tgt == next;
    match spec_step_amount_in(cur, next, liquidity, first, max, is_base_input, zero_for_one) {
        Err(e) => Err(e),
        Ok(amount_in) => match spec_step_amount_out(cur, next, liquidity, first, max, is_base_input, zero_for_one) {
            Err(e) => Err(e),
            Ok(amount_out) => Ok((amount_in, amount_out)),
        },
    }
}

/// The whole swap step: the available amount, the range amount, the price
/// reached, a check that it lies on the target's side (`InvalidArgument`
/// otherwise), the recomputed amounts, then the fee.
pub open spec fn spec_compute_swap(
    cur: u128,
    tgt: u128,
    liquidity: u128,
    amount_remaining: u64,
    fee_rate: u32,
    is_base_input: bool,
    zero_for_one: bool,
    is_fee_on_input: bool,
) -> Result<SwapComputationResult> {
    match spec_step_price(cur, tgt, liquidity, amount_remaining, fee_rate, is_base_input, zero_for_one, is_fee_on_input) {
        Err(e) => Err(e),
        Ok((next, first)) => if (zero_for_one && next < tgt) || (!zero_for_one && tgt < next) {
            Err(ProgramError::InvalidArgument)
        } else {
            match spec_step_amounts(cur, next, tgt, liquidity, first, is_base_input, zero_for_one) {
                Err(e) => Err(e),
                Ok((amount_in, amount_out)) => spec_step_fees(next, tgt, amount_in, amount_out, amount_remaining, fee_rate, is_base_input, is_fee_on_input),
            }
        },
    }
}

/// Computes one swap step from the current price toward the target price.
pub fn compute_swap(
    sqrt_price_current_x64: u128,
    sqrt_price_target_x64: u128,
    liquidity: u128,
    amount_remaining: u64,
    fee_rate: u32,
    is_base_input: bool,
    zero_for_one: bool,
    is_fee_on_input: bool,
) -> (r: Result<SwapComputationResult>)
    requires
        fee_rate <= FEE_RATE_DENOMINATOR_VALUE,
    ensures
        r == spec_compute_swap(
            sqrt_price_current_x64,
            sqrt_price_target_x64,
            liquidity,
            amount_remaining,
            fee_rate,
            is_base_input,
            zero_for_one,
            is_fee_on_input,
        ),
{
    let (next, first) = step_price(
        sqrt_price_current_x64,
        sqrt_price_target_x64,
        liquidity,
        amount_remaining,
        fee_rate,
        is_base_input,
        zero_for_one,
        is_fee_on_input,
    )?;
    if zero_for_one {
        if !(next >= sqrt_price_target_x64) {
            return Err(ProgramError::InvalidArgument);
        }
    } else {
        if !(sqrt_price_target_x64 >= next) {
            return Err(ProgramError::InvalidArgument);
        }
    }
    let (amount_in, amount_out) = step_amounts(
        sqrt_price_current_x64,
        next,
        sqrt_price_target_x64,
        liquidity,
        first,
        is_base_input,
        zero_for_one,
    )?;
    step_fees(
        next,
        sqrt_price_target_x64,
        amount_in,
        amount_out,
        amount_remaining,
        fee_rate,
        is_base_input,
        is_fee_on_input,
    )
}

/// The price a step reaches, with the range amount.
fn step_price(
    sqrt_price_current_x64: u128,
    sqrt_price_target_x64: u128,
    liquidity: u128,
    amount_remaining: u64,
    fee_rate: u32,
    is_base_input: bool,
    zero_for_one: bool,
    is_fee_on_input: bool,
) -> (r: Result<(u128, u64)>)
    requires
        fee_rate <= FEE_RATE_DENOMINATOR_VALUE,
    ensures
        r == spec_step_price(
            sqrt_price_current_x64,
            sqrt_price_target_x64,
            liquidity,
            amount_remaining,
            fee_rate,
            is_base_input,
            zero_for_one,
            is_fee_on_input,
        ),
{
    if is_base_input {
        let amount_for_price_calc = if is_fee_on_input {
            match amount_remaining.mul_div_floor(
                (FEE_RATE_DENOMINATOR_VALUE - fee_rate) as u64,
                FEE_RATE_DENOMINATOR_VALUE as u64,
            ) {
                Some(v) => v,
                None => return Err(ProgramError::from_code(ErrorCode::CalculateOverflow)),
            }
        } else {
            amount_remaining
        };
        let amount_in = calculate_amount_in_range(
            sqrt_price_current_x64,
            sqrt_price_target_x64,
            liquidity,
            zero_for_one,
            is_base_input,
        )?;
        let first: u64 = match amount_in {
            Some(v) => v,
            None => 0,
        };
        let next = if amount_in.is_some() && amount_for_price_calc >= first {
            sqrt_price_target_x64
        } else {
            get_next_sqrt_price_from_input(
                sqrt_price_current_x64,
                liquidity,
                amount_for_price_calc,
                zero_for_one,
            )?
        };
        Ok((next, first))
    } else {
        let amount_for_price_calc = amount_remaining;
        let amount_out = calculate_amount_in_range(
            sqrt_price_current_x64,
            sqrt_price_target_x64,
            liquidity,
            zero_for_one,
            is_base_input,
        )?;
        let first: u64 = match amount_out {
            Some(v) => v,
            None => 0,
        };
        let next = if amount_out.is_some() && amount_for_price_calc >= first {
            sqrt_price_target_x64
        } else {
            get_next_sqrt_price_from_output(
                sqrt_price_current_x64,
                liquidity,
                amount_for_price_calc,
                zero_for_one,
            )?
        };
        Ok((next, first))
    }
}

/// The gross input and output amounts of a step.
fn step_amounts(
    sqrt_price_current_x64: u128,
    next: u128,
    sqrt_price_target_x64: u128,
    liquidity: u128,
    first: u64,
    is_base_input: bool,
    zero_for_one: bool,
) -> (r: Result<(u64, u64)>)
    ensures
        r == spec_step_amounts(sqrt_price_current_x64, next, sqrt_price_target_x64, liquidity, first, is_base_input, zero_for_one),
{
    let max = sqrt_price_target_x64 == next;
    let mut amount_in: u64 = if is_base_input { first } else { 0 };
    let mut amount_out: u64 = if is_base_input { 0 } else { first };
    if zero_for_one {
        if !(max && is_base_input) {
            amount_in = get_delta_amount_0_unsigned(next, sqrt_price_current_x64, liquidity, true)?;
        }
        if !(max && !is_base_input) {
            amount_out = get_delta_amount_1_unsigned(next, sqrt_price_current_x64, liquidity, false)?;
        }
    } else {
        if !(max && is_base_input) {
            amount_in = get_delta_amount_1_unsigned(sqrt_price_current_x64, next, liquidity, true)?;
        }
        if !(max && !is_base_input) {
            amount_out = get_delta_amount_0_unsigned(sqrt_price_current_x64, next, liquidity, false)?;
        }
    }
    Ok((amount_in, amount_out))
}

/// The fee of a step and the amounts net of it.
fn step_fees(
    next: u128,
    sqrt_price_target_x64: u128,
    amount_in: u64,
    amount_out: u64,
    amount_remaining: u64,
    fee_rate: u32,
    is_base_input: bool,
    is_fee_on_input: bool,
) -> (r: Result<SwapComputationResult>)
    requires
        fee_rate <= FEE_RATE_DENOMINATOR_VALUE,
    ensures
        r == spec_step_fees(next, sqrt_price_target_x64, amount_in, amount_out, amount_remaining, fee_rate, is_base_input, is_fee_on_input),
{
    let max = sqrt_price_target_x64 == next;
    let mut result = SwapComputationResult { sqrt_price_next_x64: next, amount_in, amount_out, fee_amount: 0 };
    if is_base_input {
        if is_fee_on_input {
            if result.sqrt_price_next_x64 != sqrt_price_target_x64 {
                result.fee_amount = match amount_remaining.checked_sub(result.amount_in) {
                    Some(v) => v,
                    None => return Err(ProgramError::from_code(ErrorCode::CalculateOverflow)),
                };
            } else {
                result.fee_amount = match result.amount_in.mul_div_ceil(
                    fee_rate as u64,
                    (FEE_RATE_DENOMINATOR_VALUE - fee_rate) as u64,
                ) {
                    Some(v) => v,
                    None => return Err(ProgramError::from_code(ErrorCode::CalculateOverflow)),
                };
            }
        } else {
            result.fee_amount = match result.amount_out.mul_div_ceil(
                fee_rate as u64,
                FEE_RATE_DENOMINATOR_VALUE as u64,
            ) {
                Some(v) => v,
                None => return Err(ProgramError::from_code(ErrorCode::CalculateOverflow)),
            };
            result.amount_out = match result.amount_out.checked_sub(result.fee_amount) {
                Some(v) => v,
                None => return Err(ProgramError::from_code(ErrorCode::CalculateOverflow)),
            };
            if !max {
                result.amount_in = amount_remaining;
            }
        }
    } else {
        if is_fee_on_input {
            result.amount_out = if result.amount_out < amount_remaining {
                result.amount_out
            } else {
                amount_remaining
            };
            result.fee_amount = match result.amount_in.mul_div_ceil(
                fee_rate as u64,
                (FEE_RATE_DENOMINATOR_VALUE - fee_rate) as u64,
            ) {
                Some(v) => v,
                None => return Err(ProgramError::from_code(ErrorCode::CalculateOverflow)),
            };
        } else {
            result.fee_amount = match result.amount_out.mul_div_ceil(
                fee_rate as u64,
                FEE_RATE_DENOMINATOR_VALUE as u64,
            ) {
                Some(v) => v,
                None => return Err(ProgramError::from_code(ErrorCode::CalculateOverflow)),
            };
            let net_output = match result.amount_out.checked_sub(result.fee_amount) {
                Some(v) => v,
                None => return Err(ProgramError::from_code(ErrorCode::CalculateOverflow)),
            };
            if net_output > amount_remaining {
                result.fee_amount = match result.amount_out.checked_sub(amount_remaining) {
                    Some(v) => v,
                    None => return Err(ProgramError::from_code(ErrorCode::CalculateOverflow)),
                };
                result.amount_out = amount_remaining;
            } else {
                result.amount_out = net_output;
            }
        }
    }
    Ok(result)
}

/// The amount that moves the price all the way to the target.
pub fn calculate_amount_in_range(
    sqrt_price_current_x64: u128,
    sqrt_price_target_x64: u128,
    liquidity: u128,
    zero_for_one: bool,
    is_base_input: bool,
) -> (r: Result<Option<u64>>)
    ensures
        r == spec_amount_in_range(sqrt_price_current_x64, sqrt_price_target_x64, liquidity, zero_for_one, is_base_input),
{
    let result = if is_base_input {
        if zero_for_one {
            get_delta_amount_0_unsigned(sqrt_price_target_x64, sqrt_price_current_x64, liquidity, true)
        } else {
            get_delta_amount_1_unsigned(sqrt_price_current_x64, sqrt_price_target_x64, liquidity, true)
        }
    } else {
        if zero_for_one {
            get_delta_amount_1_unsigned(sqrt_price_target_x64, sqrt_price_current_x64, liquidity, false)
        } else {
            get_delta_amount_0_unsigned(sqrt_price_current_x64, sqrt_price_target_x64, liquidity, false)
        }
    };
    match result {
        Ok(v) => Ok(Some(v)),
        Err(e) => {
            if e == ProgramError::from_code(ErrorCode::MaxTokenOverflow) {
                Ok(None)
            } else {
                Err(ProgramError::from_code(ErrorCode::SqrtPriceLimitOverflow))
            }
        },
    }
}

/// The price a step reaches lies between the current price and the target
/// (where the target lies in the swap direction): at or below the current
/// price and at or above the target for a zero-for-one step, the other way
/// round otherwise.
pub proof fn lemma_compute_swap_price_between(
    cur: u128,
    tgt: u128,
    liquidity: u128,
    amount_remaining: u64,
    fee_rate: u32,
    is_base_input: bool,
    zero_for_one: bool,
    is_fee_on_input: bool,
)
    requires
        fee_rate <= FEE_RATE_DENOMINATOR_VALUE,
        zero_for_one ==> tgt <= cur,
        !zero_for_one ==> cur <= tgt,
    ensures
        spec_compute_swap(cur, tgt, liquidity, amount_remaining, fee_rate, is_base_input, zero_for_one, is_fee_on_input)
            matches Ok(step) ==> (if zero_for_one {
                tgt <= step.sqrt_price_next_x64 <= cur
            } else {
                cur <= step.sqrt_price_next_x64 <= tgt
            }),
{
    match spec_amount_for_price(amount_remaining, fee_rate, is_base_input, is_fee_on_input) {
        None => {},
        Some(afp) => {
            lemma_next_sqrt_price_direction(cur, liquidity, afp as u64, zero_for_one);
        },
    }
}

/// Rounding the price toward less movement keeps the input that price
/// needs within the amount that produced it: the token amount between the
/// current price and the price an input of `a` reaches, rounded up, is at
/// most `a`.
proof fn lemma_input_covers_move(cur: u128, liquidity: u128, a: u64, zero_for_one: bool)
    ensures
        spec_next_sqrt_price_from_input(cur, liquidity, a, zero_for_one) matches Ok(n) ==> (if zero_for_one {
            spec_get_delta_amount_0(n, cur, liquidity, true) matches Ok(x) ==> x <= a
        } else {
            spec_get_delta_amount_1(cur, n, liquidity, true) matches Ok(x) ==> x <= a
        }),
{
    lemma_next_sqrt_price_direction(cur, liquidity, a, zero_for_one);
    if cur > 0 && liquidity > 0 {
        let p = cur as int;
        let n1 = liquidity * b64();
        assert(n1 > 0) by (nonlinear_arith) requires n1 == liquidity * b64(), liquidity > 0, b64() > 0;
        if zero_for_one {
            if a == 0 {
                let num = liquidity * b64() * (cur - cur);
                assert(num == 0) by (nonlinear_arith) requires num == liquidity * b64() * (cur - cur);
                lemma_ceil_div_compare(0, p, 0);
                assert(spec_next_sqrt_price_from_input(cur, liquidity, a, zero_for_one) == Ok::<u128, ProgramError>(cur));
                assert(spec_delta_amount_0(cur, cur, liquidity, true) == 0);
            } else {
                let product = a * cur;
                assert(product > 0) by (nonlinear_arith) requires product == a * cur, a > 0, cur > 0;
                assert(n1 * p >= 0) by (nonlinear_arith) requires n1 > 0, p > 0;
                let n = ceil_div(n1 * p, n1 + product);
                lemma_ceil_div_bounds(n1 * p, n1 + product);
                assert(n1 * p <= p * (n1 + product)) by (nonlinear_arith) requires n1 > 0, p > 0, product > 0;
                lemma_ceil_div_compare(n1 * p, n1 + product, p);
                if 0 < n <= p {
                    let num = liquidity * b64() * (p - n);
                    assert(num == n1 * (p - n)) by (nonlinear_arith) requires num == liquidity * b64() * (p - n), n1 == liquidity * b64();
                    assert(num <= (a * n) * p) by (nonlinear_arith)
                        requires
                            num == n1 * (p - n),
                            (n1 + product) * n >= n1 * p,
                            product == a * p,
                            n > 0, p > 0, n1 > 0;
                    assert(num >= 0) by (nonlinear_arith) requires num == n1 * (p - n), n1 > 0, n <= p;
                    lemma_ceil_div_compare(num, p, a * n);
                    let c1 = ceil_div(num, p);
                    lemma_ceil_div_bounds(num, p);
                    lemma_ceil_div_compare(c1, n, a as int);
                    assert(spec_delta_amount_0(n as u128, cur, liquidity, true) == ceil_div(c1, n));
                    assert(spec_next_sqrt_price_from_input(cur, liquidity, a, zero_for_one) == Ok::<u128, ProgramError>(n as u128));
                    assert(spec_get_delta_amount_0(n as u128, cur, liquidity, true) matches Ok(x) ==> x <= a);
                } else {
                    assert(n == 0);
                    assert(spec_next_sqrt_price_from_input(cur, liquidity, a, zero_for_one) == Ok::<u128, ProgramError>(0));
                    assert(spec_get_delta_amount_0(0, cur, liquidity, true) is Err);
                }
            }
        } else {
            let q = a * b64() / (liquidity as int);
            assert(a * b64() >= 0) by (nonlinear_arith) requires a >= 0, b64() > 0;
            vstd::arithmetic::div_mod::lemma_fundamental_div_mod(a * b64(), liquidity as int);
            vstd::arithmetic::div_mod::lemma_div_pos_is_pos(a * b64(), liquidity as int);
            assert(liquidity * q <= a * b64()) by (nonlinear_arith)
                requires
                    a * b64() == liquidity * q + (a * b64()) % (liquidity as int),
                    (a * b64()) % (liquidity as int) >= 0;
            assert(liquidity * q >= 0) by (nonlinear_arith) requires q >= 0, liquidity > 0;
            lemma_ceil_div_compare(liquidity * q, b64(), a as int);
            if cur + q <= u128::MAX {
                let n = (cur + q) as u128;
                assert(n - cur == q);
                assert(spec_delta_amount_1(cur, n, liquidity, true) == ceil_div(liquidity * q, b64()));
                assert(spec_next_sqrt_price_from_input(cur, liquidity, a, zero_for_one) == Ok::<u128, ProgramError>(n));
                assert(spec_get_delta_amount_1(cur, n, liquidity, true) matches Ok(x) ==> x <= a);
            }
        }
    }
}

/// Rounding the price toward more movement keeps the output that price
/// gives at or above the amount that produced it: the token amount between
/// the current price and the price an output of `a` reaches, rounded down,
/// is at least `a`.
proof fn lemma_output_covers_move(cur: u128, liquidity: u128, a: u64, zero_for_one: bool)
    ensures
        spec_next_sqrt_price_from_output(cur, liquidity, a, zero_for_one) matches Ok(n) ==> (if zero_for_one {
            spec_get_delta_amount_1(n, cur, liquidity, false) matches Ok(x) ==> x >= a
        } else {
            spec_get_delta_amount_0(cur, n, liquidity, false) matches Ok(x) ==> x >= a
        }),
{
    lemma_next_sqrt_price_direction(cur, liquidity, a, zero_for_one);
    if cur > 0 && liquidity > 0 {
        let p = cur as int;
        let b = b64();
        if zero_for_one {
            assert(a * b >= 0) by (nonlinear_arith) requires a >= 0, b > 0;
            lemma_ceil_div_bounds(a * b, liquidity as int);
            let q = ceil_div(a * b, liquidity as int);
            if p - q >= 0 {
                let n = (p - q) as u128;
                assert(liquidity * (p - n) == liquidity * q);
                assert(liquidity * q >= a * b);
                vstd::arithmetic::div_mod::lemma_div_is_ordered(a * b, liquidity * q, b);
                vstd::arithmetic::div_mod::lemma_div_multiples_vanish(a as int, b);
                assert(a * b == b * a) by (nonlinear_arith);
                assert(spec_delta_amount_1(n, cur, liquidity, false) == liquidity * q / b);
            }
        } else if a > 0 {
            let n1 = liquidity * b;
            let product = a * cur;
            assert(n1 > 0) by (nonlinear_arith) requires n1 == liquidity * b, liquidity > 0, b > 0;
            assert(product > 0) by (nonlinear_arith) requires product == a * cur, a > 0, cur > 0;
            if product < n1 {
                assert(n1 * p >= 0) by (nonlinear_arith) requires n1 > 0, p > 0;
                lemma_ceil_div_bounds(n1 * p, n1 - product);
                let n = ceil_div(n1 * p, n1 - product);
                assert(n1 * p >= p * (n1 - product)) by (nonlinear_arith) requires n1 > 0, p > 0, product > 0;
                lemma_ceil_div_compare(n1 * p, n1 - product, p);
                if n <= u128::MAX {
                    let num = liquidity * b * (n - p);
                    assert(num == n1 * (n - p)) by (nonlinear_arith) requires num == liquidity * b * (n - p), n1 == liquidity * b;
                    assert(num >= (a * p) * n) by (nonlinear_arith)
                        requires
                            num == n1 * (n - p),
                            (n1 - product) * n >= n1 * p,
                            product == a * p,
                            n >= p, p > 0, n1 > 0;
                    assert((a * p) * n >= 0) by (nonlinear_arith) requires a >= 0, p > 0, n >= p;
                    vstd::arithmetic::div_mod::lemma_div_is_ordered((a * p) * n, num, n);
                    vstd::arithmetic::div_mod::lemma_div_multiples_vanish(a * p, n);
                    assert((a * p) * n == n * (a * p)) by (nonlinear_arith);
                    assert(num / n >= a * p);
                    vstd::arithmetic::div_mod::lemma_div_is_ordered(a * p, num / n, p);
                    vstd::arithmetic::div_mod::lemma_div_multiples_vanish(a as int, p);
                    assert(a * p == p * a) by (nonlinear_arith);
                    assert(spec_delta_amount_0(cur, n as u128, liquidity, false) == num / n / p);
                }
            }
        } else {
            assert(spec_delta_amount_0(cur, cur, liquidity, false) == 0) by {
                let num = liquidity * b * (cur - cur);
                assert(num == 0) by (nonlinear_arith) requires num == liquidity * b * (cur - cur);
            }
        }
    }
}

/// Selling token 0 for an exact output of token 1 on a liquidity of at
/// most 2^64, the token-1 amount between the current price and the price
/// that output reaches, rounded down, is at most that output.
proof fn lemma_output_move_at_most(cur: u128, liquidity: u128, a: u64)
    requires
        liquidity <= b64(),
    ensures
        spec_next_sqrt_price_from_output(cur, liquidity, a, true) matches Ok(n)
            ==> spec_delta_amount_1(n, cur, liquidity, false) <= a,
{
    if cur > 0 && liquidity > 0 {
        let b = b64();
        let l = liquidity as int;
        assert(a * b >= 0) by (nonlinear_arith) requires a >= 0, b > 0;
        lemma_ceil_div_bounds(a * b, l);
        let q = ceil_div(a * b, l);
        lemma_ceil_div_compare(a * b, l, 0);
        if cur - q >= 0 {
            let n = (cur - q) as u128;
            assert(l * q < (a + 1) * b) by (nonlinear_arith)
                requires l * (q - 1) < a * b || a * b == 0, l * q >= a * b, 0 < l <= b, q >= 0,
                    a * b == 0 ==> q == 0;
            assert(liquidity * (cur - n) == l * q);
            assert(l * q >= 0) by (nonlinear_arith) requires l > 0, q >= 0;
            vstd::arithmetic::div_mod::lemma_fundamental_div_mod(l * q, b);
            assert((l * q) / b <= a) by (nonlinear_arith)
                requires l * q < (a + 1) * b, l * q == b * ((l * q) / b) + (l * q) % b, (l * q) % b >= 0, b > 0;
        }
    }
}

/// What a step uses of the amount remaining: for exact input the input
/// (with the fee when it is charged on input), for exact output the output
/// (with the fee when it is charged on output). A step never uses more than
/// remains, and uses all of it when it stops short of its target; for exact
/// output with the fee on output this holds when selling token 0 on a
/// liquidity of at most 2^64, and in either direction where what remains
/// covers the whole range to the target. Whatever the case, a step that
/// stops short of its target uses at least all that remains.
pub proof fn lemma_compute_swap_within_remaining(
    cur: u128,
    tgt: u128,
    liquidity: u128,
    amount_remaining: u64,
    fee_rate: u32,
    is_base_input: bool,
    zero_for_one: bool,
    is_fee_on_input: bool,
)
    requires
        fee_rate <= FEE_RATE_DENOMINATOR_VALUE,
    ensures
        spec_compute_swap(cur, tgt, liquidity, amount_remaining, fee_rate, is_base_input, zero_for_one, is_fee_on_input)
            matches Ok(step) ==> {
                let used: int = if is_base_input {
                    if is_fee_on_input { step.amount_in + step.fee_amount } else { step.amount_in as int }
                } else {
                    if is_fee_on_input { step.amount_out as int } else { step.amount_out + step.fee_amount }
                };
                &&& (is_base_input || is_fee_on_input || (zero_for_one && liquidity <= b64())) ==> {
                    &&& used <= amount_remaining
                    &&& step.sqrt_price_next_x64 != tgt ==> used == amount_remaining
                }
                &&& step.sqrt_price_next_x64 != tgt ==> used >= amount_remaining
                &&& (spec_amount_in_range(cur, tgt, liquidity, zero_for_one, is_base_input) matches Ok(Some(v))
                    && v <= amount_remaining && !is_base_input && !is_fee_on_input)
                    ==> step.sqrt_price_next_x64 == tgt && used <= amount_remaining
            },
{
    let d = FEE_RATE_DENOMINATOR_VALUE as int;
    match spec_amount_for_price(amount_remaining, fee_rate, is_base_input, is_fee_on_input) {
        None => {},
        Some(afp) => {
            if is_base_input {
                lemma_input_covers_move(cur, liquidity, afp as u64, zero_for_one);
                if is_fee_on_input {
                    assert(amount_remaining * (d - fee_rate) >= 0) by (nonlinear_arith)
                        requires amount_remaining >= 0, d - fee_rate >= 0;
                    if d - fee_rate > 0 {
                        vstd::arithmetic::div_mod::lemma_fundamental_div_mod(amount_remaining * (d - fee_rate), d);
                        assert(afp * d <= amount_remaining * (d - fee_rate)) by (nonlinear_arith)
                            requires
                                amount_remaining * (d - fee_rate) == d * afp + (amount_remaining * (d - fee_rate)) % d,
                                (amount_remaining * (d - fee_rate)) % d >= 0;
                        assert forall|x: int| 0 <= x <= afp implies #[trigger] (x * fee_rate) <= (amount_remaining - x) * (d - fee_rate) by {
                            assert(x * fee_rate <= (amount_remaining - x) * (d - fee_rate)) by (nonlinear_arith)
                                requires
                                    0 <= x <= afp,
                                    afp * d <= amount_remaining * (d - fee_rate),
                                    d == 1_000_000,
                                    0 <= fee_rate < d;
                        }
                        assert forall|x: int| 0 <= x <= afp implies #[trigger] ceil_div(x * fee_rate, d - fee_rate) <= amount_remaining - x by {
                            assert(x * fee_rate >= 0) by (nonlinear_arith) requires x >= 0, fee_rate >= 0;
                            assert(x * fee_rate <= (amount_remaining - x) * (d - fee_rate));
                            lemma_ceil_div_compare(x * fee_rate, d - fee_rate, amount_remaining - x);
                        }
                    }
                }
            } else {
                lemma_output_covers_move(cur, liquidity, afp as u64, zero_for_one);
                if zero_for_one && liquidity <= b64() {
                    lemma_output_move_at_most(cur, liquidity, afp as u64);
                }
            }
        },
    }
}

/// The fee of a step charged on the input is the input-side fee: the least
/// fee such that the input with the fee, net of the fee rate, covers the
/// input, `(amount_in + fee) * (1 - rate) >= amount_in` (in millionths),
/// for every exact-output step and every exact-input step that reaches its
/// target. A fee charged on the output is at least the fee rate's share of
/// the gross output (what is paid out plus the fee).
pub proof fn lemma_step_fee_matches_its_side(
    cur: u128,
    tgt: u128,
    liquidity: u128,
    amount_remaining: u64,
    fee_rate: u32,
    is_base_input: bool,
    zero_for_one: bool,
    is_fee_on_input: bool,
)
    requires
        fee_rate <= FEE_RATE_DENOMINATOR_VALUE,
    ensures
        spec_compute_swap(cur, tgt, liquidity, amount_remaining, fee_rate, is_base_input, zero_for_one, is_fee_on_input)
            matches Ok(step) ==> {
                let d = FEE_RATE_DENOMINATOR_VALUE as int;
                &&& (is_fee_on_input && (!is_base_input || step.sqrt_price_next_x64 == tgt)) ==> {
                    &&& fee_rate < d
                    &&& (step.amount_in + step.fee_amount) * (d - fee_rate) >= step.amount_in * d
                    &&& (step.fee_amount == 0 || (step.amount_in + step.fee_amount - 1) * (d - fee_rate) < step.amount_in * d)
                }
                &&& !is_fee_on_input ==> step.fee_amount * d >= (step.amount_out + step.fee_amount) * fee_rate
            },
{
    let d = FEE_RATE_DENOMINATOR_VALUE as int;
    match spec_compute_swap(cur, tgt, liquidity, amount_remaining, fee_rate, is_base_input, zero_for_one, is_fee_on_input) {
        Err(_) => {},
        Ok(step) => {
            let a = step.amount_in as int;
            let f = step.fee_amount as int;
            let o = step.amount_out as int;
            let r = fee_rate as int;
            if is_fee_on_input && (!is_base_input || step.sqrt_price_next_x64 == tgt) {
                assert(r < d);
                assert(a * r >= 0) by (nonlinear_arith) requires a >= 0, r >= 0;
                lemma_ceil_div_bounds(a * r, d - r);
                lemma_ceil_div_compare(a * r, d - r, 0);
                assert(f == ceil_div(a * r, d - r));
                assert((a + f) * (d - r) >= a * d) by (nonlinear_arith)
                    requires (d - r) * f >= a * r;
                if f != 0 {
                    assert((a + f - 1) * (d - r) < a * d) by (nonlinear_arith)
                        requires (d - r) * (f - 1) < a * r || a * r == 0, f >= 1, d - r > 0, a * r >= 0,
                            a * r == 0 ==> f == 0;
                }
            }
            if !is_fee_on_input {
                match spec_step_price(cur, tgt, liquidity, amount_remaining, fee_rate, is_base_input, zero_for_one, is_fee_on_input) {
                    Err(_) => {},
                    Ok((next, first)) => {
                        match spec_step_amounts(cur, next, tgt, liquidity, first, is_base_input, zero_for_one) {
                            Err(_) => {},
                            Ok((gin, gout)) => {
                                let g = gout as int;
                                assert(g * r >= 0) by (nonlinear_arith) requires g >= 0, r >= 0;
                                lemma_ceil_div_bounds(g * r, d);
                                let c = ceil_div(g * r, d);
                                assert(o + f == g || (o + f < g && f == c));
                                assert(f * d >= (o + f) * r) by (nonlinear_arith)
                                    requires d * c >= g * r, (f == c && o + f == g) || (f == c && o + f <= g) || (o + f == g && f >= c),
                                        0 <= r <= d, d > 0, f >= 0, o >= 0;
                            },
                        }
                    },
                }
            }
        },
    }
}

} // verus!
