//! Price observations of a pool.

use crate::Pubkey;
use vstd::prelude::*;

verus! {

/// Seed of an observation account address.
pub const OBSERVATION_SEED: [u8; 11] = [111, 98, 115, 101, 114, 118, 97, 116, 105, 111, 110];

/// Number of observations kept, in a ring.
pub const OBSERVATION_NUM: usize = 100;

/// Least number of seconds between two recorded observations.
pub const OBSERVATION_UPDATE_DURATION_DEFAULT: u32 = 15;

/// One observation: a time and the tick accumulated up to it.
#[derive(Copy, Clone, Debug, Default)]
pub struct Observation {
    pub block_timestamp: u32,
    pub tick_cumulative: i64,
    pub padding: [u64; 4],
}

impl Observation {
    /// Stored size of an observation.
    pub const LEN: usize = 4 + 8 + 8 * 4;
}

/// The ring of observations of a pool.
#[derive(Copy, Clone, Debug)]
pub struct ObservationState {
    pub initialized: u8,
    pub recent_epoch: u64,
    pub observation_index: u16,
    pub pool_id: Pubkey,
    pub observations: [Observation; OBSERVATION_NUM],
    pub padding: [u64; 4],
}

impl ObservationState {
    /// Account tag of an observation ring.
    pub const DISCRIMINATOR: [u8; 8] = [122, 174, 197, 53, 129, 9, 165, 132];

    /// Stored size of an observation ring, with its tag.
    pub const LEN: usize = 8 + 1 + 8 + 2 + 32 + Observation::LEN * OBSERVATION_NUM + 8 * 4;
}

} // verus!
