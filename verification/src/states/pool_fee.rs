//! Pool fee settings.

use vstd::prelude::*;

verus! {

/// Largest fee-rate numerator of a dynamic fee.
pub const MAX_FEE_RATE_NUMERATOR: u32 = 100_000;

/// Scale of the volatility accumulator.
pub const VOLATILITY_ACCUMULATOR_SCALE: u16 = 10_000;

/// Denominator of the reduction factor.
pub const REDUCTION_FACTOR_DENOMINATOR: u16 = 10_000;

/// Denominator of the dynamic fee control.
pub const DYNAMIC_FEE_CONTROL_DENOMINATOR: u32 = 100_000;

/// Dynamic-fee parameters and state of a pool.
#[derive(Copy, Clone, Debug)]
pub struct DynamicFeeInfo {
    pub filter_period: u16,
    pub decay_period: u16,
    pub reduction_factor: u16,
    pub dynamic_fee_control: u32,
    pub max_volatility_accumulator: u32,
    pub tick_spacing_index_reference: i32,
    pub volatility_reference: u32,
    pub volatility_accumulator: u32,
    pub last_update_timestamp: u64,
    pub padding: [u8; 46],
}

impl DynamicFeeInfo {
    /// Stored size of the dynamic-fee block.
    pub const LEN: usize = 2 + 2 + 2 + 4 + 4 + 4 + 4 + 4 + 8 + 46;
}

/// Which token a pool charges its swap fee in.
#[derive(Copy, Clone, Debug, PartialEq, Eq, Structural)]
pub enum CollectFeeOn {
    FromInput,
    Token0Only,
    Token1Only,
}

/// The stored byte of a fee mode.
pub open spec fn collect_fee_on_byte(c: CollectFeeOn) -> u8 {
    match c {
        CollectFeeOn::FromInput => 0,
        CollectFeeOn::Token0Only => 1,
        CollectFeeOn::Token1Only => 2,
    }
}

/// The fee mode a stored byte stands for; any unknown byte means
/// `FromInput`.
pub open spec fn spec_collect_fee_on(v: u8) -> CollectFeeOn {
    if v == 1 {
        CollectFeeOn::Token0Only
    } else if v == 2 {
        CollectFeeOn::Token1Only
    } else {
        CollectFeeOn::FromInput
    }
}

/// Decoding the stored byte of a fee mode gives the mode back.
pub proof fn lemma_collect_fee_on_roundtrip(c: CollectFeeOn)
    ensures
        spec_collect_fee_on(collect_fee_on_byte(c)) == c,
{
}

impl CollectFeeOn {
    /// Decodes a stored fee mode; any unknown byte means `FromInput`.
    pub fn from_u8(v: u8) -> (r: Self)
        ensures
            r == spec_collect_fee_on(v),
    {
        match v {
            1 => Self::Token0Only,
            2 => Self::Token1Only,
            _ => Self::FromInput,
        }
    }

    /// Encodes a fee mode as its stored byte.
    pub fn to_u8(&self) -> (r: u8)
        ensures
            r == collect_fee_on_byte(*self),
    {
        match self {
            Self::FromInput => 0,
            Self::Token0Only => 1,
            Self::Token1Only => 2,
        }
    }
}

} // verus!
