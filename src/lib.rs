//! Staking registry for NFTs: deposit, windowed reward accrual, claiming,
//! and a withdrawal delay before a staked asset is handed back.
//!
//! All state lives in a [`state::Registry`] value; times are milliseconds and
//! reward amounts are integer units of the configured denomination.

pub mod accrual;
pub mod contract;
pub mod error;
pub mod execute;
pub mod laws;
pub mod msg;
pub mod order;
pub mod query;
pub mod state;

pub use crate::error::ContractError;
