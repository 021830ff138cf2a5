pub mod create_pool;
pub mod decrease_liquidity;
pub mod exact_internal;
pub mod increase_liquidity;
pub mod swap;
pub mod swap_v2;
pub mod swap_internal;
