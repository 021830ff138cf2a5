//! An exact-amount swap against a pool: works out the direction from the
//! input vault, checks the vaults, runs the swap and settles the amounts
//! against the caller's slippage bound.

use crate::error::{spec_program_error, ErrorCode, ProgramError, Result};
use crate::instructions::swap::TickArrayPath;
use crate::instructions::swap_internal::{
    same_but_ticks, spec_limit_ok, spec_observation_updated, spec_pool_after_swap, spec_pool_rewards_updated, spec_rewards_fit,
    spec_swap_checked, spec_swap_inputs_ok, swap_internal, ticks_of, SwapInternalResult,
};
use crate::libraries::tick_math::{MAX_SQRT_PRICE_X64, MIN_SQRT_PRICE_X64};
use crate::states::config::AmmConfig;
use crate::states::oracle::ObservationState;
use crate::states::pool::PoolState;
use crate::util::account_load::AccountInput;
use crate::util::bytes::{le_value, read_u64_le};
use crate::util::token::{pubkey_eq, spec_token_kind, TokenKind};
use crate::Pubkey;
use vstd::prelude::*;

verus! {

/// Where a token account keeps its balance.
pub const VAULT_AMOUNT_OFFSET: usize = 64;

/// The balance recorded in token-account data; 0 when the data is too short.
pub open spec fn spec_vault_amount(data: Seq<u8>) -> u64 {
    if data.len() < VAULT_AMOUNT_OFFSET + 8 {
        0
    } else {
        le_value(data.subrange(VAULT_AMOUNT_OFFSET as int, VAULT_AMOUNT_OFFSET + 8)) as u64
    }
}

/// The mint recorded in token-account data (its first 32 bytes); all zero
/// when the data is too short.
pub open spec fn spec_vault_mint(data: Seq<u8>) -> Seq<u8> {
    if data.len() < 32 {
        Seq::new(32, |i: int| 0u8)
    } else {
        data.subrange(0, 32)
    }
}

/// Reads the balance of a token account.
pub fn read_vault_amount(data: &[u8]) -> (r: u64)
    ensures
        r == spec_vault_amount(data@),
{
    if data.len() < VAULT_AMOUNT_OFFSET + 8 {
        return 0;
    }
    read_u64_le(data, VAULT_AMOUNT_OFFSET)
}

/// Reads the mint of a token account.
pub fn read_vault_mint(data: &[u8]) -> (r: Pubkey)
    ensures
        r@ == spec_vault_mint(data@),
{
    let mut out = [0u8; 32];
    if data.len() < 32 {
        assert(out@ =~= Seq::new(32, |i: int| 0u8));
        return out;
    }
    let mut i: usize = 0;
    while i < 32
        invariant
            0 <= i <= 32,
            32 <= data@.len(),
            forall|j: int| 0 <= j < i ==> out@[j] == data@[j],
        decreases 32 - i,
    {
        out[i] = data[i];
        i = i + 1;
    }
    assert(out@ =~= data@.subrange(0, 32));
    out
}

/// What a settled swap moves: `amount_in` from the payer into the input
/// vault, `amount_out` from the output vault to the payer; then `result`
/// is the instruction's outcome: the amount checked against the slippage
/// bound.
pub struct SwapSettlement {
    pub amount_in: u64,
    pub amount_out: u64,
    pub result: Result<u64>,
}

/// The price limit a swap runs to: the given one, or when it is 0 the
/// extreme price just inside the bound in the swap direction.
pub open spec fn spec_effective_limit(limit: u128, zero_for_one: bool) -> u128 {
    if limit == 0 {
        if zero_for_one { (MIN_SQRT_PRICE_X64 + 1) as u128 } else { (MAX_SQRT_PRICE_X64 - 1) as u128 }
    } else {
        limit
    }
}

/// A limit of 0 means no price limit: in either direction the limit it
/// stands for passes the swap's limit check whenever the pool price lies
/// strictly inside the price bounds (above `MIN_SQRT_PRICE_X64 + 1`, below
/// `MAX_SQRT_PRICE_X64 - 1`), and it lets the price go at least as far as
/// any limit that passes; any other limit is used as given.
pub proof fn lemma_zero_limit_is_no_limit(price: u128, zero_for_one: bool, limit: u128)
    ensures
        MIN_SQRT_PRICE_X64 + 1 < price < MAX_SQRT_PRICE_X64 - 1
            ==> spec_limit_ok(price, spec_effective_limit(0, zero_for_one), zero_for_one),
        spec_limit_ok(price, limit, zero_for_one) ==> if zero_for_one {
            spec_effective_limit(0, zero_for_one) <= limit
        } else {
            limit <= spec_effective_limit(0, zero_for_one)
        },
        limit != 0 ==> spec_effective_limit(limit, zero_for_one) == limit,
{
}

/// The outcome after the transfers: for exact input the output must reach
/// the threshold (`TooLittleOutputReceived`), for exact output the input
/// must stay within it (`TooMuchInputPaid`).
pub open spec fn spec_slippage_result(amount_in: u64, amount_out: u64, threshold: u64, is_base_input: bool) -> Result<u64> {
    if is_base_input {
        if amount_out >= threshold { Ok(amount_out) } else { Err(spec_program_error(ErrorCode::TooLittleOutputReceived)) }
    } else {
        if amount_in <= threshold { Ok(amount_in) } else { Err(spec_program_error(ErrorCode::TooMuchInputPaid)) }
    }
}

/// The checks before the swap: the direction is zero-for-one when the input
/// vault holds the pool's first mint; the vaults must be the pool's, in
/// that direction (`InvalidInputPoolVault`); the input vault must belong to
/// a token program (`IncorrectProgramId`) and the output vault to the same
/// one (`InvalidInputPoolVault`). Gives the direction.
pub open spec fn spec_swap_vaults(pool: PoolState, input_vault: AccountInput, output_vault: AccountInput) -> Result<bool> {
    let zero_for_one = spec_vault_mint(input_vault.data@) == pool.token_mint_0@;
    let expected_in = if zero_for_one { pool.token_vault_0@ } else { pool.token_vault_1@ };
    let expected_out = if zero_for_one { pool.token_vault_1@ } else { pool.token_vault_0@ };
    if input_vault.key@ != expected_in || output_vault.key@ != expected_out {
        Err(spec_program_error(ErrorCode::InvalidInputPoolVault))
    } else if spec_token_kind(input_vault.owner@) is None {
        Err(ProgramError::IncorrectProgramId)
    } else if output_vault.owner@ != input_vault.owner@ {
        Err(spec_program_error(ErrorCode::InvalidInputPoolVault))
    } else {
        Ok(zero_for_one)
    }
}

/// The amounts in and out of a swap's reported token amounts.
pub open spec fn spec_in_out(res: SwapInternalResult, zero_for_one: bool) -> (u64, u64) {
    if zero_for_one { (res.amount_0, res.amount_1) } else { (res.amount_1, res.amount_0) }
}

/// The checks of the vaults.
fn check_swap_vaults(pool_state: &PoolState, input_vault: &AccountInput, output_vault: &AccountInput) -> (r: Result<bool>)
    ensures
        r == spec_swap_vaults(*pool_state, *input_vault, *output_vault),
{
    let input_vault_mint = read_vault_mint(input_vault.data);
    let zero_for_one = pubkey_eq(&input_vault_mint, &pool_state.token_mint_0);
    let (input_vault_expected, output_vault_expected) = if zero_for_one {
        (pool_state.token_vault_0, pool_state.token_vault_1)
    } else {
        (pool_state.token_vault_1, pool_state.token_vault_0)
    };
    if !pubkey_eq(&input_vault.key, &input_vault_expected) || !pubkey_eq(&output_vault.key, &output_vault_expected) {
        return Err(ProgramError::from_code(ErrorCode::InvalidInputPoolVault));
    }
    let _input_balance_before = read_vault_amount(input_vault.data);
    let _output_balance_before = read_vault_amount(output_vault.data);
    if let Err(e) = TokenKind::from_owner(&input_vault.owner) {
        return Err(e);
    }
    if !pubkey_eq(&output_vault.owner, &input_vault.owner) {
        return Err(ProgramError::from_code(ErrorCode::InvalidInputPoolVault));
    }
    Ok(zero_for_one)
}

/// Swaps `amount_specified` of the input token (or, when not
/// `is_base_input`, for that much of the output token) with the pool whose
/// vaults are given, and settles the amounts against
/// `other_amount_threshold`. A limit of 0 means no price limit. An error
/// aborts the whole instruction.
pub fn exact_internal(
    pool_state: &mut PoolState,
    tick_arrays: &mut TickArrayPath,
    amm_config: &AmmConfig,
    observation_state: &mut ObservationState,
    input_vault: &AccountInput,
    output_vault: &AccountInput,
    amount_specified: u64,
    other_amount_threshold: u64,
    sqrt_price_limit_x64: u128,
    is_base_input: bool,
    block_timestamp: u64,
) -> (r: Result<SwapSettlement>)
    ensures
        match spec_swap_vaults(*old(pool_state), *input_vault, *output_vault) {
            Err(e) => {
                &&& r == Err::<SwapSettlement, ProgramError>(e)
                &&& *final(pool_state) == *old(pool_state)
                &&& *final(tick_arrays) == *old(tick_arrays)
                &&& *final(observation_state) == *old(observation_state)
            },
            Ok(zero_for_one) => {
                let sr = spec_swap_checked(*old(pool_state), *old(tick_arrays), *amm_config, *old(observation_state),
                    amount_specified, spec_effective_limit(sqrt_price_limit_x64, zero_for_one), zero_for_one, is_base_input, block_timestamp);
                match sr {
                    Err(e) => r == Err::<SwapSettlement, ProgramError>(e),
                    Ok((s, t, h, pf, ff, res)) => {
                        if res.amount_0 == 0 || res.amount_1 == 0 {
                            r == Err::<SwapSettlement, ProgramError>(spec_program_error(ErrorCode::TooSmallInputOrOutputAmount))
                        } else {
                            let (amount_in, amount_out) = spec_in_out(res, zero_for_one);
                            &&& r matches Ok(st) && st.amount_in == amount_in && st.amount_out == amount_out
                                && st.result == spec_slippage_result(amount_in, amount_out, other_amount_threshold, is_base_input)
                            &&& spec_pool_after_swap(*old(pool_state), *final(pool_state), s, pf, ff, zero_for_one, block_timestamp)
                            &&& ticks_of(final(tick_arrays).entries()) == t
                            &&& same_but_ticks(old(tick_arrays).entries(), final(tick_arrays).entries())
                            &&& final(tick_arrays).head() == h
                            &&& spec_observation_updated(*old(observation_state), *final(observation_state), block_timestamp as u32, s.tick_current)
                        }
                    },
                }
            },
        },
        spec_swap_vaults(*old(pool_state), *input_vault, *output_vault) is Ok
            && (amount_specified == 0 || !spec_rewards_fit(*old(pool_state), block_timestamp)) ==> {
            &&& *final(pool_state) == *old(pool_state)
            &&& *final(tick_arrays) == *old(tick_arrays)
            &&& *final(observation_state) == *old(observation_state)
        },
        spec_swap_vaults(*old(pool_state), *input_vault, *output_vault) matches Ok(zero_for_one)
            && amount_specified != 0 && spec_rewards_fit(*old(pool_state), block_timestamp)
            && (!spec_limit_ok(old(pool_state).sqrt_price_x64, spec_effective_limit(sqrt_price_limit_x64, zero_for_one), zero_for_one)
                || !spec_swap_inputs_ok(*old(pool_state), *old(tick_arrays), *amm_config, *old(observation_state), block_timestamp)) ==> {
            &&& spec_pool_rewards_updated(*old(pool_state), *final(pool_state), block_timestamp)
            &&& *final(tick_arrays) == *old(tick_arrays)
            &&& *final(observation_state) == *old(observation_state)
        },
{
    let zero_for_one = match check_swap_vaults(pool_state, input_vault, output_vault) {
        Ok(z) => z,
        Err(e) => return Err(e),
    };
    let limit = if sqrt_price_limit_x64 == 0 {
        if zero_for_one { MIN_SQRT_PRICE_X64 + 1 } else { MAX_SQRT_PRICE_X64 - 1 }
    } else {
        sqrt_price_limit_x64
    };
    let swap_result = match swap_internal(
        pool_state,
        tick_arrays,
        amm_config,
        observation_state,
        amount_specified,
        limit,
        zero_for_one,
        is_base_input,
        block_timestamp,
    ) {
        Ok(res) => res,
        Err(e) => return Err(e),
    };
    if swap_result.amount_0 == 0 || swap_result.amount_1 == 0 {
        return Err(ProgramError::from_code(ErrorCode::TooSmallInputOrOutputAmount));
    }
    let (amount_in, amount_out) = if zero_for_one {
        (swap_result.amount_0, swap_result.amount_1)
    } else {
        (swap_result.amount_1, swap_result.amount_0)
    };
    let result = if is_base_input {
        if amount_out >= other_amount_threshold {
            Ok(amount_out)
        } else {
            Err(ProgramError::from_code(ErrorCode::TooLittleOutputReceived))
        }
    } else {
        if amount_in <= other_amount_threshold {
            Ok(amount_in)
        } else {
            Err(ProgramError::from_code(ErrorCode::TooMuchInputPaid))
        }
    };
    Ok(SwapSettlement { amount_in, amount_out, result })
}

} // verus!
