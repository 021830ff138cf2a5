//! Q64.64 fixed-point constants.

use vstd::prelude::*;

verus! {

/// Number of fractional bits.
pub const RESOLUTION: u8 = 64;

/// One in Q64.64, 2^64.
pub const Q64: u128 = 0x1_0000_0000_0000_0000;

} // verus!
