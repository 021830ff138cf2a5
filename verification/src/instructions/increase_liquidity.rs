//! Arguments and account layout of liquidity addition.

use crate::error::{ProgramError, Result};
use crate::util::bytes::{le_value, read_u128_le, read_u64_le};
use vstd::prelude::*;

verus! {

/// Arguments of liquidity addition.
pub struct IncreaseLiquidityArgs {
    pub liquidity: u128,
    pub amount_0_max: u64,
    pub amount_1_max: u64,
    pub base_flag: Option<bool>,
}

/// The optional base flag encoded at byte 32: `0` for none, `1` followed by
/// a flag byte (non-zero meaning true); anything else, or a missing flag
/// byte, is malformed.
pub open spec fn spec_base_flag(data: Seq<u8>) -> Option<Option<bool>> {
    if data[32] == 0 {
        Some(None)
    } else if data[32] == 1 {
        if data.len() < 34 { None } else { Some(Some(data[33] != 0)) }
    } else {
        None
    }
}

impl IncreaseLiquidityArgs {
    /// Smallest encoded size of the arguments.
    pub const MIN_SIZE: usize = 16 + 8 + 8 + 1;

    /// Decodes the arguments; trailing bytes are ignored.
    pub fn try_from_bytes(data: &[u8]) -> (r: Result<Self>)
        ensures
            data@.len() < 33 ==> r == Err::<Self, ProgramError>(ProgramError::InvalidInstructionData),
            data@.len() >= 33 ==> (spec_base_flag(data@) is None ==> r == Err::<Self, ProgramError>(ProgramError::InvalidInstructionData)),
            data@.len() >= 33 ==> (spec_base_flag(data@) matches Some(f) ==> r matches Ok(a)
                && a.liquidity == le_value(data@.subrange(0, 16))
                && a.amount_0_max == le_value(data@.subrange(16, 24))
                && a.amount_1_max == le_value(data@.subrange(24, 32))
                && a.base_flag == f),
    {
        if data.len() < Self::MIN_SIZE {
            return Err(ProgramError::InvalidInstructionData);
        }
        let liquidity = read_u128_le(data, 0);
        let amount_0_max = read_u64_le(data, 16);
        let amount_1_max = read_u64_le(data, 24);
        let base_flag = match data[32] {
            0 => None,
            1 => {
                if data.len() < 34 {
                    return Err(ProgramError::InvalidInstructionData);
                }
                Some(data[33] != 0)
            },
            _ => return Err(ProgramError::InvalidInstructionData),
        };
        Ok(Self { liquidity, amount_0_max, amount_1_max, base_flag })
    }
}

/// Positions of the accounts liquidity addition takes.
pub enum AccountIdx {
    NftOwner,
    NftAccount,
    PoolState,
    ProtocolPosition,
    PersonalPosition,
    TickArrayLower,
    TickArrayUpper,
    TokenAccount0,
    TokenAccount1,
    TokenVault0,
    TokenVault1,
    TokenProgram,
    TokenProgram2022,
    VaultMint0,
    VaultMint1,
}

/// Number of accounts liquidity addition needs.
pub const MIN_ACCOUNTS: usize = 15;

/// Liquidity addition is not offered: with too few accounts it fails with
/// `NotEnoughAccountKeys`, otherwise with `InvalidInstructionData`.
pub fn process(num_accounts: usize, data: &[u8]) -> (r: Result<()>)
    ensures
        num_accounts < MIN_ACCOUNTS ==> r == Err::<(), ProgramError>(ProgramError::NotEnoughAccountKeys),
        num_accounts >= MIN_ACCOUNTS ==> r == Err::<(), ProgramError>(ProgramError::InvalidInstructionData),
{
    if num_accounts < MIN_ACCOUNTS {
        return Err(ProgramError::NotEnoughAccountKeys);
    }
    let _args = IncreaseLiquidityArgs::try_from_bytes(data)?;
    Err(ProgramError::InvalidInstructionData)
}

} // verus!
