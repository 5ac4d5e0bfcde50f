//! A constant-product exchange pool, its liquidity-share ledger and a
//! registry that keeps one pool per token; beside them, a lottery's ticket
//! ranking and a shared pixel canvas.
pub mod events;
pub mod exchange;
pub mod factory;
pub mod ledger;
pub mod lottery;
pub mod pixel;
pub mod pricing;
pub mod types;

pub use types::{AccountId, Balance, ExchangeError};
