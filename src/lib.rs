//! Overflow-checked scaled-decimal arithmetic and a two-asset liquidity pool
//! built on it.
pub mod error;
pub mod fixed;
pub mod lp_pool;
