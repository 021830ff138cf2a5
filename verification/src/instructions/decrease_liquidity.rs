//! Arguments and account layout of liquidity removal.

use crate::error::{ProgramError, Result};
use crate::util::bytes::{le_value, read_u128_le, read_u64_le};
use vstd::prelude::*;

verus! {

/// Arguments of liquidity removal.
pub struct DecreaseLiquidityArgs {
    pub liquidity: u128,
    pub amount_0_min: u64,
    pub amount_1_min: u64,
}

/// The arguments encoded in `data`: a little-endian `u128` then two `u64`s.
pub open spec fn spec_decrease_liquidity_args(data: Seq<u8>) -> Option<(u128, u64, u64)> {
    if data.len() < 32 {
        None
    } else {
        Some((
            le_value(data.subrange(0, 16)) as u128,
            le_value(data.subrange(16, 24)) as u64,
            le_value(data.subrange(24, 32)) as u64,
        ))
    }
}

impl DecreaseLiquidityArgs {
    /// Encoded size of the arguments.
    pub const SIZE: usize = 16 + 8 + 8;

    /// Decodes the arguments; trailing bytes are ignored.
    pub fn try_from_bytes(data: &[u8]) -> (r: Result<Self>)
        ensures
            spec_decrease_liquidity_args(data@) is None ==> r == Err::<Self, ProgramError>(ProgramError::InvalidInstructionData),
            spec_decrease_liquidity_args(data@) matches Some((l, a0, a1)) ==> r matches Ok(a)
                && a.liquidity == l && a.amount_0_min == a0 && a.amount_1_min == a1,
    {
        if data.len() < Self::SIZE {
            return Err(ProgramError::InvalidInstructionData);
        }
        let liquidity = read_u128_le(data, 0);
        let amount_0_min = read_u64_le(data, 16);
        let amount_1_min = read_u64_le(data, 24);
        Ok(Self { liquidity, amount_0_min, amount_1_min })
    }
}

/// Positions of the accounts liquidity removal takes.
pub enum AccountIdx {
    NftOwner,
    NftAccount,
    PersonalPosition,
    PoolState,
    ProtocolPosition,
    TokenAccount0,
    TokenAccount1,
    TokenVault0,
    TokenVault1,
    TickArrayLower,
    TickArrayUpper,
    RecipientToken0,
    RecipientToken1,
    TokenProgram,
    TokenProgram2022,
    MemoProgram,
    VaultMint0,
    VaultMint1,
}

/// Number of accounts liquidity removal needs.
pub const MIN_ACCOUNTS: usize = 18;

/// Liquidity removal is not offered: with too few accounts it fails with
/// `NotEnoughAccountKeys`, otherwise with `InvalidInstructionData`.
pub fn process(num_accounts: usize, data: &[u8]) -> (r: Result<()>)
    ensures
        num_accounts < MIN_ACCOUNTS ==> r == Err::<(), ProgramError>(ProgramError::NotEnoughAccountKeys),
        num_accounts >= MIN_ACCOUNTS ==> r == Err::<(), ProgramError>(ProgramError::InvalidInstructionData),
{
    if num_accounts < MIN_ACCOUNTS {
        return Err(ProgramError::NotEnoughAccountKeys);
    }
    let _args = DecreaseLiquidityArgs::try_from_bytes(data)?;
    Err(ProgramError::InvalidInstructionData)
}

} // verus!
