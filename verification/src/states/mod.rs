pub mod config;
pub mod oracle;
pub mod personal_position;
pub mod pool;
pub mod pool_fee;
pub mod protocol_position;
pub mod tick_array;
pub mod tickarray_bitmap_extension;
