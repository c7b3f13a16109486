//! A time-locked escrow engine: deposits of native coins or fungible-token
//! balances are held under a caller-chosen identifier until a chosen expiry
//! instant, may be topped up before expiry, and are released in full to the
//! original depositor after expiry, exactly once.
//!
//! The registry logic lives in [`contract`], the balance ledger in
//! [`balance`]; commands and queries are the types of [`msg`].

pub mod balance;
pub mod contract;
pub mod error;
pub mod msg;
pub mod order;
pub mod state;
