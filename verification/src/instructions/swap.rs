//! Arguments and accounts of a swap, and the queue of tick arrays it walks.

use crate::error::{ProgramError, Result};
use crate::states::config::AmmConfig;
use crate::states::oracle::ObservationState;
use crate::states::pool::PoolState;
use crate::states::tick_array::TickArrayState;
use crate::util::account_load::{key_at_eq, load, load_mut, spec_validate, AccountInput};
use crate::util::bytes::{le_value, read_u128_le, read_u64_le};
use crate::Pubkey;
use vstd::prelude::*;

verus! {

/// Arguments of a swap.
pub struct SwapArgs {
    pub amount: u64,
    pub other_amount_threshold: u64,
    pub sqrt_price_limit_x64: u128,
    pub is_base_input: bool,
}

/// The arguments encoded in `data`: two little-endian `u64`s, a `u128`
/// price limit and an exact-input byte (non-zero meaning true).
pub open spec fn spec_swap_args(data: Seq<u8>) -> Option<(u64, u64, u128, bool)> {
    if data.len() < 33 {
        None
    } else {
        Some((
            le_value(data.subrange(0, 8)) as u64,
            le_value(data.subrange(8, 16)) as u64,
            le_value(data.subrange(16, 32)) as u128,
            data[32] != 0,
        ))
    }
}

impl SwapArgs {
    /// Encoded size of the arguments.
    pub const SIZE: usize = 8 + 8 + 16 + 1;

    /// Decodes the arguments; trailing bytes are ignored.
    pub fn try_from_bytes(data: &[u8]) -> (r: Result<Self>)
        ensures
            spec_swap_args(data@) is None ==> r == Err::<Self, ProgramError>(ProgramError::InvalidInstructionData),
            spec_swap_args(data@) matches Some((a, t, p, b)) ==> r matches Ok(s) && s.amount == a
                && s.other_amount_threshold == t && s.sqrt_price_limit_x64 == p && s.is_base_input == b,
    {
        if data.len() < Self::SIZE {
            return Err(ProgramError::InvalidInstructionData);
        }
        let amount = read_u64_le(data, 0);
        let other_amount_threshold = read_u64_le(data, 8);
        let sqrt_price_limit_x64 = read_u128_le(data, 16);
        let is_base_input = data[32] != 0;
        Ok(Self { amount, other_amount_threshold, sqrt_price_limit_x64, is_base_input })
    }
}

/// Positions of the accounts a swap takes; tick arrays follow the last.
pub enum AccountIdx {
    Payer,
    AmmConfig,
    PoolState,
    InputTokenAccount,
    OutputTokenAccount,
    InputVault,
    OutputVault,
    ObservationState,
    TokenProgram,
    TickArray,
}

/// Number of accounts a swap needs at least.
pub const MIN_ACCOUNTS: usize = 10;

/// Most tick arrays a swap may walk.
pub const MAX_TICK_ARRAYS_PER_SWAP: usize = 8;

/// Where a pool's configuration address lies in its account data.
pub const POOL_AMM_CONFIG_OFFSET: usize = 9;
/// Where a pool's observation address lies in its account data.
pub const POOL_OBSERVATION_KEY_OFFSET: usize = 201;
/// Where a tick array's pool address lies in its account data.
pub const TICK_ARRAY_POOL_ID_OFFSET: usize = 8;

/// The 32 bytes of `data` from `off`.
pub open spec fn spec_key_at(data: Seq<u8>, off: int) -> Seq<u8> {
    data.subrange(off, off + 32)
}

/// The tick arrays from position `i` on: each a writable tick array of the
/// program belonging to the pool `pool_key` (`InvalidArgument` otherwise),
/// at most `MAX_TICK_ARRAYS_PER_SWAP` in all (`InvalidArgument` beyond);
/// gives their number.
pub open spec fn spec_bind_tick_arrays(accs: Seq<AccountInput>, i: int, program_id: Seq<u8>, pool_key: Seq<u8>, count: int) -> Result<int>
    decreases accs.len() - i,
{
    if i < 0 || i >= accs.len() {
        Ok(count)
    } else {
        match spec_validate(accs[i], program_id, true, TickArrayState::LEN as nat, TickArrayState::DISCRIMINATOR@) {
            Err(e) => Err(e),
            Ok(_) => if spec_key_at(accs[i].data@, TICK_ARRAY_POOL_ID_OFFSET as int) != pool_key {
                Err(ProgramError::InvalidArgument)
            } else if count >= MAX_TICK_ARRAYS_PER_SWAP {
                Err(ProgramError::InvalidArgument)
            } else {
                spec_bind_tick_arrays(accs, i + 1, program_id, pool_key, count + 1)
            },
        }
    }
}

/// The checks on a swap's accounts, in order: enough accounts, a signing
/// payer, the configuration, a writable pool naming that configuration,
/// writable vaults and token accounts, a writable observation account that
/// the pool names, then the tick arrays; gives the number of tick arrays.
pub open spec fn spec_bind_swap_accounts(accs: Seq<AccountInput>, program_id: Seq<u8>) -> Result<int> {
    if accs.len() < MIN_ACCOUNTS {
        Err(ProgramError::NotEnoughAccountKeys)
    } else if !accs[0].is_signer {
        Err(ProgramError::MissingRequiredSignature)
    } else if let Err(e) = spec_validate(accs[1], program_id, false, AmmConfig::LEN as nat, AmmConfig::DISCRIMINATOR@) {
        Err(e)
    } else if let Err(e) = spec_validate(accs[2], program_id, true, PoolState::LEN as nat, PoolState::DISCRIMINATOR@) {
        Err(e)
    } else if accs[1].key@ != spec_key_at(accs[2].data@, POOL_AMM_CONFIG_OFFSET as int) {
        Err(ProgramError::InvalidArgument)
    } else if !accs[5].is_writable || !accs[6].is_writable {
        Err(ProgramError::InvalidAccountData)
    } else if !accs[3].is_writable || !accs[4].is_writable {
        Err(ProgramError::InvalidAccountData)
    } else if let Err(e) = spec_validate(accs[7], program_id, true, ObservationState::LEN as nat, ObservationState::DISCRIMINATOR@) {
        Err(e)
    } else if accs[7].key@ != spec_key_at(accs[2].data@, POOL_OBSERVATION_KEY_OFFSET as int) {
        Err(ProgramError::InvalidArgument)
    } else {
        spec_bind_tick_arrays(accs, 9, program_id, accs[2].key@, 0)
    }
}

/// Checks the accounts of a swap before they are read: on success gives
/// the number of tick arrays that follow the fixed accounts.
pub fn bind_swap_accounts(accounts: &[AccountInput], program_id: &Pubkey) -> (r: Result<usize>)
    ensures
        spec_bind_swap_accounts(accounts@, program_id@) matches Ok(n) ==> r == Ok::<usize, ProgramError>(n as usize),
        spec_bind_swap_accounts(accounts@, program_id@) matches Err(e) ==> r == Err::<usize, ProgramError>(e),
{
    let n = accounts.len();
    if n < MIN_ACCOUNTS {
        return Err(ProgramError::NotEnoughAccountKeys);
    }
    if !accounts[0].is_signer {
        return Err(ProgramError::MissingRequiredSignature);
    }
    if let Err(e) = load::<AmmConfig>(&accounts[1], program_id) {
        return Err(e);
    }
    if let Err(e) = load_mut::<PoolState>(&accounts[2], program_id) {
        return Err(e);
    }
    if !key_at_eq(accounts[2].data, POOL_AMM_CONFIG_OFFSET, &accounts[1].key) {
        return Err(ProgramError::InvalidArgument);
    }
    if !accounts[5].is_writable || !accounts[6].is_writable {
        return Err(ProgramError::InvalidAccountData);
    }
    if !accounts[3].is_writable || !accounts[4].is_writable {
        return Err(ProgramError::InvalidAccountData);
    }
    if let Err(e) = load_mut::<ObservationState>(&accounts[7], program_id) {
        return Err(e);
    }
    if !key_at_eq(accounts[2].data, POOL_OBSERVATION_KEY_OFFSET, &accounts[7].key) {
        return Err(ProgramError::InvalidArgument);
    }
    let pool_key: Pubkey = accounts[2].key;
    let mut count: usize = 0;
    let mut i: usize = 9;
    while i < n
        invariant
            9 <= i <= n,
            n == accounts@.len(),
            count <= MAX_TICK_ARRAYS_PER_SWAP,
            pool_key@ == accounts@[2].key@,
            spec_bind_tick_arrays(accounts@, i as int, program_id@, pool_key@, count as int)
                == spec_bind_swap_accounts(accounts@, program_id@),
        decreases n - i,
    {
        if let Err(e) = load_mut::<TickArrayState>(&accounts[i], program_id) {
            return Err(e);
        }
        if !key_at_eq(accounts[i].data, TICK_ARRAY_POOL_ID_OFFSET, &pool_key) {
            return Err(ProgramError::InvalidArgument);
        }
        if count >= MAX_TICK_ARRAYS_PER_SWAP {
            return Err(ProgramError::InvalidArgument);
        }
        count = count + 1;
        i = i + 1;
    }
    Ok(count)
}

/// The tick arrays of a swap, in the order it walks them. Taking the front
/// array hands out its position; the array stays stored so that its
/// changes can be read back.
pub struct TickArrayPath {
    entries: Vec<TickArrayState>,
    head: usize,
}

impl TickArrayPath {
    /// Every array ever pushed, in order.
    pub closed spec fn entries(&self) -> Seq<TickArrayState> {
        self.entries@
    }

    /// Number of arrays already taken from the front.
    pub closed spec fn head(&self) -> int {
        self.head as int
    }

    /// The taken count never exceeds the stored count, and at most
    /// `MAX_TICK_ARRAYS_PER_SWAP` arrays wait.
    pub open spec fn wf(&self) -> bool {
        0 <= self.head() <= self.entries().len()
            && self.entries().len() - self.head() <= MAX_TICK_ARRAYS_PER_SWAP
            && self.entries().len() <= usize::MAX
    }

    /// Whether the path keeps its bounds (which every path built by `new`
    /// and `push` does).
    pub fn is_wf(&self) -> (r: bool)
        ensures
            r == self.wf(),
    {
        self.head <= self.entries.len() && self.entries.len() - self.head <= MAX_TICK_ARRAYS_PER_SWAP
    }

    /// An empty path.
    pub fn new() -> (r: Self)
        ensures
            r.wf(),
            r.entries() == Seq::<TickArrayState>::empty(),
            r.head() == 0,
    {
        Self { entries: Vec::new(), head: 0 }
    }

    /// Appends an array; `InvalidArgument` when the path is full.
    pub fn push(&mut self, t: TickArrayState) -> (r: Result<()>)
        requires
            old(self).wf(),
        ensures
            final(self).wf(),
            old(self).entries().len() - old(self).head() >= MAX_TICK_ARRAYS_PER_SWAP ==> r
                == Err::<(), ProgramError>(ProgramError::InvalidArgument) && *final(self) == *old(self),
            old(self).entries().len() - old(self).head() < MAX_TICK_ARRAYS_PER_SWAP ==> r is Ok
                && final(self).entries() == old(self).entries().push(t) && final(self).head() == old(self).head(),
    {
        if self.entries.len() - self.head >= MAX_TICK_ARRAYS_PER_SWAP {
            return Err(ProgramError::InvalidArgument);
        }
        self.entries.push(t);
        let _n = self.entries.len();
        Ok(())
    }

    /// Number of arrays ever pushed.
    pub fn entries_len(&self) -> (r: usize)
        ensures
            r == self.entries().len(),
    {
        self.entries.len()
    }

    /// Number of arrays not yet taken.
    pub fn len(&self) -> (r: usize)
        requires
            self.wf(),
        ensures
            r == self.entries().len() - self.head(),
    {
        self.entries.len() - self.head
    }

    /// Whether every array has been taken.
    pub fn is_empty(&self) -> (r: bool)
        requires
            self.wf(),
        ensures
            r == (self.entries().len() == self.head()),
    {
        self.entries.len() == self.head
    }

    /// Takes the front array, giving its position; `None` when none is left.
    pub fn pop_front(&mut self) -> (r: Option<usize>)
        requires
            old(self).wf(),
        ensures
            final(self).wf(),
            final(self).entries() == old(self).entries(),
            old(self).head() == old(self).entries().len() ==> r is None && final(self).head() == old(self).head(),
            old(self).head() < old(self).entries().len() ==> r == Some(old(self).head() as usize)
                && final(self).head() == old(self).head() + 1,
    {
        if self.head == self.entries.len() {
            return None;
        }
        let h = self.head;
        self.head = self.head + 1;
        Some(h)
    }

    /// The array stored at position `i`.
    pub fn get(&self, i: usize) -> (r: &TickArrayState)
        requires
            i < self.entries().len(),
        ensures
            *r == self.entries()[i as int],
    {
        &self.entries[i]
    }

    /// Replaces the array stored at position `i`.
    pub fn set(&mut self, i: usize, t: TickArrayState)
        requires
            i < old(self).entries().len(),
        ensures
            final(self).entries() == old(self).entries().update(i as int, t),
            final(self).head() == old(self).head(),
    {
        self.entries.set(i, t);
    }

    /// Every array ever pushed, in order, with the changes made to them.
    pub fn into_entries(self) -> (r: Vec<TickArrayState>)
        ensures
            r@ == self.entries(),
    {
        self.entries
    }
}

} // verus!
