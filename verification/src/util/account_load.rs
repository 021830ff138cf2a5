//! Checks an account must pass before its data is read as a program state:
//! the owner, the writability, the size and the 8-byte type tag.

use crate::error::{ProgramError, Result};
use crate::states::config::AmmConfig;
use crate::states::oracle::ObservationState;
use crate::states::personal_position::PersonalPositionState;
use crate::states::pool::PoolState;
use crate::states::protocol_position::ProtocolPositionState;
use crate::states::tick_array::TickArrayState;
use crate::states::tickarray_bitmap_extension::TickArrayBitmapExtension;
use crate::util::token::pubkey_eq;
use crate::Pubkey;
use vstd::prelude::*;

verus! {

/// A program state stored in an account behind an 8-byte type tag.
pub trait AccountSchema {
    /// The tag that opens the account data.
    spec fn spec_discriminator() -> [u8; 8];

    /// Size of the account data: the tag and the state.
    spec fn spec_len() -> usize;

    /// The tag that opens the account data.
    fn discriminator() -> (r: [u8; 8])
        ensures
            r == Self::spec_discriminator(),
    ;

    /// Size of the account data: the tag and the state.
    fn len() -> (r: usize)
        ensures
            r == Self::spec_len(),
    ;
}

impl AccountSchema for AmmConfig {
    open spec fn spec_discriminator() -> [u8; 8] {
        AmmConfig::DISCRIMINATOR
    }

    open spec fn spec_len() -> usize {
        AmmConfig::LEN
    }

    fn discriminator() -> (r: [u8; 8]) {
        AmmConfig::DISCRIMINATOR
    }

    fn len() -> (r: usize) {
        AmmConfig::LEN
    }
}

impl AccountSchema for PoolState {
    open spec fn spec_discriminator() -> [u8; 8] {
        PoolState::DISCRIMINATOR
    }

    open spec fn spec_len() -> usize {
        PoolState::LEN
    }

    fn discriminator() -> (r: [u8; 8]) {
        PoolState::DISCRIMINATOR
    }

    fn len() -> (r: usize) {
        PoolState::LEN
    }
}

impl AccountSchema for TickArrayState {
    open spec fn spec_discriminator() -> [u8; 8] {
        TickArrayState::DISCRIMINATOR
    }

    open spec fn spec_len() -> usize {
        TickArrayState::LEN
    }

    fn discriminator() -> (r: [u8; 8]) {
        TickArrayState::DISCRIMINATOR
    }

    fn len() -> (r: usize) {
        TickArrayState::LEN
    }
}

impl AccountSchema for ObservationState {
    open spec fn spec_discriminator() -> [u8; 8] {
        ObservationState::DISCRIMINATOR
    }

    open spec fn spec_len() -> usize {
        ObservationState::LEN
    }

    fn discriminator() -> (r: [u8; 8]) {
        ObservationState::DISCRIMINATOR
    }

    fn len() -> (r: usize) {
        ObservationState::LEN
    }
}

impl AccountSchema for PersonalPositionState {
    open spec fn spec_discriminator() -> [u8; 8] {
        PersonalPositionState::DISCRIMINATOR
    }

    open spec fn spec_len() -> usize {
        PersonalPositionState::LEN
    }

    fn discriminator() -> (r: [u8; 8]) {
        PersonalPositionState::DISCRIMINATOR
    }

    fn len() -> (r: usize) {
        PersonalPositionState::LEN
    }
}

impl AccountSchema for ProtocolPositionState {
    open spec fn spec_discriminator() -> [u8; 8] {
        ProtocolPositionState::DISCRIMINATOR
    }

    open spec fn spec_len() -> usize {
        ProtocolPositionState::LEN
    }

    fn discriminator() -> (r: [u8; 8]) {
        ProtocolPositionState::DISCRIMINATOR
    }

    fn len() -> (r: usize) {
        ProtocolPositionState::LEN
    }
}

impl AccountSchema for TickArrayBitmapExtension {
    open spec fn spec_discriminator() -> [u8; 8] {
        TickArrayBitmapExtension::DISCRIMINATOR
    }

    open spec fn spec_len() -> usize {
        TickArrayBitmapExtension::LEN
    }

    fn discriminator() -> (r: [u8; 8]) {
        TickArrayBitmapExtension::DISCRIMINATOR
    }

    fn len() -> (r: usize) {
        TickArrayBitmapExtension::LEN
    }
}

/// What the program sees of an account passed to an instruction.
pub struct AccountInput<'a> {
    pub key: Pubkey,
    pub owner: Pubkey,
    pub is_signer: bool,
    pub is_writable: bool,
    pub data: &'a [u8],
}

/// The checks before reading an account as a state with tag `tag` and data
/// size `len`: owned by the program (`IncorrectProgramId`), writable where
/// needed (`InvalidAccountData`), large enough (`AccountDataTooSmall`),
/// opening with the tag (`InvalidAccountData`).
pub open spec fn spec_validate(a: AccountInput, program_id: Seq<u8>, require_writable: bool, len: nat, tag: Seq<u8>) -> Result<()> {
    if a.owner@ != program_id {
        Err(ProgramError::IncorrectProgramId)
    } else if require_writable && !a.is_writable {
        Err(ProgramError::InvalidAccountData)
    } else if a.data@.len() < len {
        Err(ProgramError::AccountDataTooSmall)
    } else if a.data@.subrange(0, 8) != tag {
        Err(ProgramError::InvalidAccountData)
    } else {
        Ok(())
    }
}

/// The checks before writing a new state into an account: owned by the
/// program, writable, large enough, and still untagged
/// (`AccountAlreadyInitialized` otherwise).
pub open spec fn spec_validate_init(a: AccountInput, program_id: Seq<u8>, len: nat) -> Result<()> {
    if a.owner@ != program_id {
        Err(ProgramError::IncorrectProgramId)
    } else if !a.is_writable {
        Err(ProgramError::InvalidAccountData)
    } else if a.data@.len() < len {
        Err(ProgramError::AccountDataTooSmall)
    } else if a.data@.subrange(0, 8) != Seq::new(8, |i: int| 0u8) {
        Err(ProgramError::AccountAlreadyInitialized)
    } else {
        Ok(())
    }
}

/// Whether `data` opens with the eight bytes of `tag`.
pub fn tag_matches(data: &[u8], tag: &[u8; 8]) -> (r: bool)
    requires
        8 <= data@.len(),
    ensures
        r == (data@.subrange(0, 8) == tag@),
{
    let mut i: usize = 0;
    while i < 8
        invariant
            0 <= i <= 8,
            8 <= data@.len(),
            forall|j: int| 0 <= j < i ==> data@[j] == tag@[j],
        decreases 8 - i,
    {
        if data[i] != tag[i] {
            assert(data@.subrange(0, 8)[i as int] != tag@[i as int]);
            return false;
        }
        i = i + 1;
    }
    assert(data@.subrange(0, 8) =~= tag@);
    true
}

/// Checks that `info` holds a state `T` of this program, writable if
/// `require_writable`.
pub fn validate<T: AccountSchema>(info: &AccountInput, program_id: &Pubkey, require_writable: bool) -> (r: Result<()>)
    requires
        8 <= T::spec_len(),
    ensures
        r == spec_validate(*info, program_id@, require_writable, T::spec_len() as nat, T::spec_discriminator()@),
{
    if !pubkey_eq(&info.owner, program_id) {
        return Err(ProgramError::IncorrectProgramId);
    }
    if require_writable && !info.is_writable {
        return Err(ProgramError::InvalidAccountData);
    }
    if info.data.len() < T::len() {
        return Err(ProgramError::AccountDataTooSmall);
    }
    let tag: [u8; 8] = T::discriminator();
    if !tag_matches(info.data, &tag) {
        return Err(ProgramError::InvalidAccountData);
    }
    Ok(())
}

/// Checks `info` before a state `T` is read from it.
pub fn load<T: AccountSchema>(info: &AccountInput, program_id: &Pubkey) -> (r: Result<()>)
    requires
        8 <= T::spec_len(),
    ensures
        r == spec_validate(*info, program_id@, false, T::spec_len() as nat, T::spec_discriminator()@),
{
    validate::<T>(info, program_id, false)
}

/// Checks `info` before a state `T` is read from it and changed.
pub fn load_mut<T: AccountSchema>(info: &AccountInput, program_id: &Pubkey) -> (r: Result<()>)
    requires
        8 <= T::spec_len(),
    ensures
        r == spec_validate(*info, program_id@, true, T::spec_len() as nat, T::spec_discriminator()@),
{
    validate::<T>(info, program_id, true)
}

/// Checks `info` before a new state `T` is written into it; on success
/// gives the tag to write at its start.
pub fn load_init<T: AccountSchema>(info: &AccountInput, program_id: &Pubkey) -> (r: Result<[u8; 8]>)
    requires
        8 <= T::spec_len(),
    ensures
        spec_validate_init(*info, program_id@, T::spec_len() as nat) is Ok ==> r == Ok::<[u8; 8], ProgramError>(T::spec_discriminator()),
        spec_validate_init(*info, program_id@, T::spec_len() as nat) matches Err(e) ==> r == Err::<[u8; 8], ProgramError>(e),
{
    if !pubkey_eq(&info.owner, program_id) {
        return Err(ProgramError::IncorrectProgramId);
    }
    if !info.is_writable {
        return Err(ProgramError::InvalidAccountData);
    }
    if info.data.len() < T::len() {
        return Err(ProgramError::AccountDataTooSmall);
    }
    let zero = [0u8; 8];
    if !tag_matches(info.data, &zero) {
        proof {
            assert(zero@ =~= Seq::new(8, |i: int| 0u8));
        }
        return Err(ProgramError::AccountAlreadyInitialized);
    }
    assert(zero@ =~= Seq::new(8, |i: int| 0u8));
    Ok(T::discriminator())
}

/// Whether `data[off..off + 32]` holds the address `key`.
pub fn key_at_eq(data: &[u8], off: usize, key: &Pubkey) -> (r: bool)
    requires
        off + 32 <= data@.len(),
    ensures
        r == (data@.subrange(off as int, off + 32) == key@),
{
    let n = data.len();
    let mut i: usize = 0;
    while i < 32
        invariant
            0 <= i <= 32,
            n == data@.len(),
            off + 32 <= data@.len(),
            forall|j: int| 0 <= j < i ==> data@[off + j] == key@[j],
        decreases 32 - i,
    {
        if data[off + i] != key[i] {
            assert(data@.subrange(off as int, off + 32)[i as int] != key@[i as int]);
            return false;
        }
        i = i + 1;
    }
    assert(data@.subrange(off as int, off + 32) =~= key@);
    true
}

} // verus!
