//! Ledger of a shared-canvas economy: accounts spend a draw token to claim
//! cells, accrue a yield token for the cells they hold, and redeem it through
//! an external mint whose outcome is settled in a second step.

pub mod account;
pub mod board;
pub mod laws;
pub mod place;
