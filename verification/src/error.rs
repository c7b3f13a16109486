//! The error taxonomy of the lockbox: every command either succeeds or fails
//! with exactly one of these kinds, leaving the registry unchanged.

use vstd::prelude::*;

verus! {

/// Why a lockbox command was rejected.
#[derive(Debug, PartialEq, Eq, Structural, Clone, Copy)]
pub enum ContractError {
    /// The attached deposit carries no funds.
    EmptyBalance,
    /// The requested expiry is not in the future.
    LowExpired,
    /// The requested expiry is too far in the future: the lock would last
    /// at least as long as the configured maximum duration.
    HighExpired,
    /// The `(depositor, lock id)` pair is already bound to a lock.
    AlreadyInUse,
    /// No lock exists under the given `(depositor, lock id)` pair.
    NotFound,
    /// The lock has already expired, so it can no longer be topped up.
    LockExpired,
    /// The lock has not expired yet, so it cannot be released.
    LockNotExpired,
    /// Merging the deposit into the held balance would overflow an amount.
    Overflow,
}

impl ContractError {
    /// A human-readable description of the error.
    pub fn message(&self) -> &'static str {
        match self {
            ContractError::EmptyBalance => "Send some coins to lock funds",
            ContractError::LowExpired => "Expire time is lower",
            ContractError::HighExpired => "Expire time is higher",
            ContractError::AlreadyInUse => "Lock id already in use",
            ContractError::NotFound => "Lock not found",
            ContractError::LockExpired => "Lock has expired",
            ContractError::LockNotExpired => "Lock has not expired",
            ContractError::Overflow => "Balance amount overflow",
        }
    }
}

} // verus!
