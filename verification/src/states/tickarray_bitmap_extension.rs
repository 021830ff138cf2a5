//! Bitmap of initialized tick arrays beyond the pool's own bitmap.

use crate::Pubkey;
use vstd::prelude::*;

verus! {

/// Number of 512-bit words on each side of zero.
pub const EXTENSION_TICKARRAY_BITMAP_SIZE: usize = 14;

/// Which far-away tick arrays of a pool are initialized.
#[derive(Copy, Clone, Debug)]
pub struct TickArrayBitmapExtension {
    pub pool_id: Pubkey,
    pub positive_tick_array_bitmap: [[u64; 8]; EXTENSION_TICKARRAY_BITMAP_SIZE],
    pub negative_tick_array_bitmap: [[u64; 8]; EXTENSION_TICKARRAY_BITMAP_SIZE],
}

impl TickArrayBitmapExtension {
    /// Account tag of a bitmap extension.
    pub const DISCRIMINATOR: [u8; 8] = [60, 150, 36, 219, 97, 128, 139, 153];

    /// Stored size of a bitmap extension, with its tag.
    pub const LEN: usize = 8 + 32 + 64 * EXTENSION_TICKARRAY_BITMAP_SIZE * 2;
}

} // verus!
