//! Account layout of the token-2022-aware swap.

use crate::error::{ProgramError, Result};
use crate::instructions::swap::SwapArgs;
use vstd::prelude::*;

verus! {

/// Positions of the accounts the second swap form takes.
pub enum AccountIdx {
    Payer,
    AmmConfig,
    PoolState,
    InputTokenAccount,
    OutputTokenAccount,
    InputVault,
    OutputVault,
    ObservationState,
    TokenProgram,
    TokenProgram2022,
    MemoProgram,
    InputVaultMint,
    OutputVaultMint,
}

/// Number of accounts the second swap form needs.
pub const MIN_ACCOUNTS: usize = 13;

/// The second swap form is not offered: with too few accounts it fails with
/// `NotEnoughAccountKeys`, otherwise with `InvalidInstructionData`.
pub fn process(num_accounts: usize, data: &[u8]) -> (r: Result<()>)
    ensures
        num_accounts < MIN_ACCOUNTS ==> r == Err::<(), ProgramError>(ProgramError::NotEnoughAccountKeys),
        num_accounts >= MIN_ACCOUNTS ==> r == Err::<(), ProgramError>(ProgramError::InvalidInstructionData),
{
    if num_accounts < MIN_ACCOUNTS {
        return Err(ProgramError::NotEnoughAccountKeys);
    }
    let _args = SwapArgs::try_from_bytes(data)?;
    Err(ProgramError::InvalidInstructionData)
}

} // verus!
