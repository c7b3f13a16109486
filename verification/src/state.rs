//! The stored state of the registry: its configuration and its lock records.

use vstd::prelude::*;

use crate::balance::{GenericBalance, GenericBalanceView};

verus! {

/// The registry configuration, set once at initialization.
#[derive(Debug, Clone, PartialEq, Eq)]
pub struct State {
    /// Longest allowed lock duration, in seconds (exclusive bound).
    pub max_lock_time: u64,
    /// The identity that initialized the registry. Recorded for schema
    /// compatibility; no command consults it.
    pub owner: String,
}

/// One escrow record: a balance held until an expiry instant.
#[derive(Debug, Clone, PartialEq, Eq)]
pub struct Lock {
    /// The instant the lock was created.
    pub create: u64,
    /// The instant after which the lock can be released.
    pub expire: u64,
    /// The accumulated deposits.
    pub funds: GenericBalance,
}

/// A lock record together with the key it is stored under.
#[derive(Debug, Clone, PartialEq, Eq)]
pub struct LockEntry {
    /// The depositor that owns the lock.
    pub addr: String,
    /// The depositor-chosen lock identifier.
    pub id: String,
    pub lock: Lock,
}

/// The mathematical value of a [`Lock`].
pub ghost struct LockView {
    pub create: u64,
    pub expire: u64,
    pub funds: GenericBalanceView,
}

impl View for Lock {
    type V = LockView;

    open spec fn view(&self) -> LockView {
        LockView { create: self.create, expire: self.expire, funds: self.funds@ }
    }
}

} // verus!
