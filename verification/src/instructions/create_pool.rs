//! Arguments and account layout of pool creation.

use crate::error::{ProgramError, Result};
use crate::util::bytes::{le_value, read_u128_le, read_u64_le};
use vstd::prelude::*;

verus! {

/// Arguments of pool creation.
pub struct CreatePoolArgs {
    pub sqrt_price_x64: u128,
    pub open_time: u64,
}

/// The arguments encoded in `data`: a little-endian `u128` price then a
/// `u64` open time; `InvalidInstructionData` when `data` is shorter.
pub open spec fn spec_create_pool_args(data: Seq<u8>) -> Option<(u128, u64)> {
    if data.len() < 24 {
        None
    } else {
        Some((le_value(data.subrange(0, 16)) as u128, le_value(data.subrange(16, 24)) as u64))
    }
}

impl CreatePoolArgs {
    /// Encoded size of the arguments.
    pub const SIZE: usize = 16 + 8;

    /// Decodes the arguments; trailing bytes are ignored.
    pub fn try_from_bytes(data: &[u8]) -> (r: Result<Self>)
        ensures
            spec_create_pool_args(data@) is None ==> r == Err::<Self, ProgramError>(ProgramError::InvalidInstructionData),
            spec_create_pool_args(data@) matches Some((p, t)) ==> r matches Ok(a) && a.sqrt_price_x64 == p && a.open_time == t,
    {
        if data.len() < Self::SIZE {
            return Err(ProgramError::InvalidInstructionData);
        }
        let sqrt_price_x64 = read_u128_le(data, 0);
        let open_time = read_u64_le(data, 16);
        Ok(Self { sqrt_price_x64, open_time })
    }
}

/// Positions of the accounts pool creation takes.
pub enum AccountIdx {
    PoolCreator,
    AmmConfig,
    PoolState,
    TokenMint0,
    TokenMint1,
    TokenVault0,
    TokenVault1,
    ObservationState,
    TickArrayBitmapExtension,
    TokenProgram0,
    TokenProgram1,
    SystemProgram,
    Rent,
}

/// Number of accounts pool creation needs.
pub const MIN_ACCOUNTS: usize = 13;

/// Pool creation is not offered: with too few accounts it fails with
/// `NotEnoughAccountKeys`, with malformed arguments with
/// `InvalidInstructionData`, and otherwise with `InvalidInstructionData` too.
pub fn process(num_accounts: usize, data: &[u8]) -> (r: Result<()>)
    ensures
        num_accounts < MIN_ACCOUNTS ==> r == Err::<(), ProgramError>(ProgramError::NotEnoughAccountKeys),
        num_accounts >= MIN_ACCOUNTS ==> r == Err::<(), ProgramError>(ProgramError::InvalidInstructionData),
{
    if num_accounts < MIN_ACCOUNTS {
        return Err(ProgramError::NotEnoughAccountKeys);
    }
    let _args = CreatePoolArgs::try_from_bytes(data)?;
    Err(ProgramError::InvalidInstructionData)
}

} // verus!
