//! Error types returned by the AnchorNet contract.

use vstd::prelude::*;

verus! {

/// Errors that can be returned by the AnchorNet liquidity contract.
///
/// Each variant maps to a stable `u32` code (see [`Error::code`]) so that
/// off-chain clients can match on the error regardless of SDK version.
#[derive(Clone, Copy, Debug, PartialEq, Eq, Structural)]
pub enum Error {
    /// The contract has already been initialized.
    AlreadyInitialized,
    /// The contract has not been initialized yet.
    NotInitialized,
    /// The caller is not authorized to perform this action.
    NotAuthorized,
    /// The anchor is already registered.
    AnchorAlreadyRegistered,
    /// The anchor is not registered.
    AnchorNotRegistered,
    /// The supplied amount must be greater than zero.
    InvalidAmount,
    /// The pool does not hold enough liquidity for this operation.
    InsufficientLiquidity,
    /// No pool exists for the requested asset.
    PoolNotFound,
    /// The contract is paused and cannot process this operation.
    Paused,
    /// The fee value is outside the allowed range.
    InvalidFee,
    /// No settlement exists with the requested id.
    SettlementNotFound,
    /// The settlement is not in a state that allows this transition.
    InvalidSettlementState,
    /// There are no accrued fees to collect.
    NoFeesToCollect,
    /// No admin transfer has been proposed.
    NoPendingAdmin,
    /// The caller is not the address proposed as the next administrator.
    NotPendingAdmin,
    /// The settlement has not yet reached its expiry ledger, or expiry is
    /// disabled, so it cannot be reclaimed via `cancel_expired_settlement`.
    SettlementNotExpired,
    /// The withdrawal would leave the pool below its configured minimum
    /// liquidity floor.
    BelowMinLiquidity,
    /// No operator has been appointed.
    NoOperator,
    /// The settlement amount exceeds the configured per-asset maximum.
    AboveMaxSettlementAmount,
    /// The same asset appears more than once in a batch liquidity operation.
    DuplicateAssetInBatch,
    /// The proposed administrator is already the administrator.
    InvalidAdminCandidate,
    /// An amount computation would leave the range of its integer type.
    Overflow,
}

impl Error {
    /// The stable numeric code of each error.
    pub open spec fn spec_code(self) -> u32 {
        match self {
            Error::AlreadyInitialized => 1,
            Error::NotInitialized => 2,
            Error::NotAuthorized => 3,
            Error::AnchorAlreadyRegistered => 4,
            Error::AnchorNotRegistered => 5,
            Error::InvalidAmount => 6,
            Error::InsufficientLiquidity => 7,
            Error::PoolNotFound => 8,
            Error::Paused => 9,
            Error::InvalidFee => 10,
            Error::SettlementNotFound => 11,
            Error::InvalidSettlementState => 12,
            Error::NoFeesToCollect => 13,
            Error::NoPendingAdmin => 14,
            Error::NotPendingAdmin => 15,
            Error::SettlementNotExpired => 16,
            Error::BelowMinLiquidity => 17,
            Error::NoOperator => 18,
            Error::AboveMaxSettlementAmount => 19,
            Error::DuplicateAssetInBatch => 20,
            Error::InvalidAdminCandidate => 21,
            Error::Overflow => 22,
        }
    }

    /// Returns the stable numeric code of this error.
    pub fn code(&self) -> (r: u32)
        ensures
            r == self.spec_code(),
    {
        match self {
            Error::AlreadyInitialized => 1,
            Error::NotInitialized => 2,
            Error::NotAuthorized => 3,
            Error::AnchorAlreadyRegistered => 4,
            Error::AnchorNotRegistered => 5,
            Error::InvalidAmount => 6,
            Error::InsufficientLiquidity => 7,
            Error::PoolNotFound => 8,
            Error::Paused => 9,
            Error::InvalidFee => 10,
            Error::SettlementNotFound => 11,
            Error::InvalidSettlementState => 12,
            Error::NoFeesToCollect => 13,
            Error::NoPendingAdmin => 14,
            Error::NotPendingAdmin => 15,
            Error::SettlementNotExpired => 16,
            Error::BelowMinLiquidity => 17,
            Error::NoOperator => 18,
            Error::AboveMaxSettlementAmount => 19,
            Error::DuplicateAssetInBatch => 20,
            Error::InvalidAdminCandidate => 21,
            Error::Overflow => 22,
        }
    }

    /// Codes are distinct: two errors share a code only if they are equal.
    pub proof fn lemma_code_injective(a: Error, b: Error)
        ensures
            a.spec_code() == b.spec_code() ==> a == b,
    {
    }
}

} // verus!
