//! The Paras collectibles NFT contract for NEAR, with its rules proved.
//!
//! A buyer pays a fixed price and gets a new token series with its first
//! edition; tokens move between accounts by transfers (NEP-171), approved
//! accounts (NEP-178) and marketplace payouts (NEP-199). The contract's state is
//! held as plain values (`state`), and every operation states in its contract
//! what it does to that state; `laws` states what holds across operations.

pub mod account;
pub mod decimal;
pub mod metadata;
pub mod order;
pub mod ids;
pub mod state;
pub mod error;
pub mod lookup;
pub mod lemmas;
pub mod contract;
pub mod market;
pub mod owners;
pub mod transfer;
pub mod near;
pub mod payout;
pub mod views;
pub mod approval;
pub mod laws;
