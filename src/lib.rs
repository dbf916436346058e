//! Prediction markets as a verified state machine: markets are created,
//! collect bets while open, are resolved once with a pro-rata payout of the
//! whole pot to the winning bets, and release any residual to their creator.
//!
//! The core never moves funds itself: resolution and withdrawal hand back
//! transfer intents for a ledger to apply.

mod identity;
pub mod market;
pub mod settlement;
pub mod withdrawal;
pub mod store;

pub use market::{Bet, Market, MarketError, TransferIntent};
pub use store::{MarketEvent, PredictionMarketContract};
pub use solana_program::pubkey::Pubkey;
