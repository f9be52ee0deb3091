//! Contract error codes.
use vstd::prelude::*;

verus! {

/// The errors a vault operation can end in. Each variant has a stable
/// numeric code, given by [`Error::code`].
#[derive(Clone, Copy, Debug, PartialEq, Eq, Structural)]
pub enum Error {
    NotKYCVerified,
    ZKMEVerifierNotSet,
    NotOperator,
    NotAdmin,
    InvalidVaultState,
    BelowMinimumDeposit,
    ExceedsMaximumDeposit,
    NotMatured,
    NoYieldToClaim,
    FundingTargetNotMet,
    VaultPaused,
    ZeroAddress,
    ZeroAmount,
    AddressBlacklisted,
    /// Reentrancy detected — a guarded function was called while already executing.
    Reentrant,
    /// A deposit during funding would take the vault's assets past its
    /// funding target.
    FundingTargetExceeded,
    /// A shortfall resolution was asked for an account with no shortfall.
    YieldShortfallNotFound,
    /// A shortfall resolution was asked for more than the account's shortfall.
    InsufficientShortfall,
}

/// The numeric code of each error, as integrators see it.
pub open spec fn error_code(e: Error) -> u32 {
    match e {
        Error::NotKYCVerified => 1,
        Error::ZKMEVerifierNotSet => 2,
        Error::NotOperator => 3,
        Error::NotAdmin => 4,
        Error::InvalidVaultState => 5,
        Error::BelowMinimumDeposit => 6,
        Error::ExceedsMaximumDeposit => 7,
        Error::NotMatured => 8,
        Error::NoYieldToClaim => 9,
        Error::FundingTargetNotMet => 10,
        Error::VaultPaused => 11,
        Error::ZeroAddress => 12,
        Error::ZeroAmount => 13,
        Error::AddressBlacklisted => 14,
        Error::Reentrant => 15,
        Error::FundingTargetExceeded => 16,
        Error::YieldShortfallNotFound => 51,
        Error::InsufficientShortfall => 52,
    }
}

impl Error {
    /// The numeric code of this error.
    pub fn code(&self) -> (c: u32)
        ensures
            c == error_code(*self),
    {
        match self {
            Error::NotKYCVerified => 1,
            Error::ZKMEVerifierNotSet => 2,
            Error::NotOperator => 3,
            Error::NotAdmin => 4,
            Error::InvalidVaultState => 5,
            Error::BelowMinimumDeposit => 6,
            Error::ExceedsMaximumDeposit => 7,
            Error::NotMatured => 8,
            Error::NoYieldToClaim => 9,
            Error::FundingTargetNotMet => 10,
            Error::VaultPaused => 11,
            Error::ZeroAddress => 12,
            Error::ZeroAmount => 13,
            Error::AddressBlacklisted => 14,
            Error::Reentrant => 15,
            Error::FundingTargetExceeded => 16,
            Error::YieldShortfallNotFound => 51,
            Error::InsufficientShortfall => 52,
        }
    }
}

/// Distinct errors have distinct codes.
pub proof fn lemma_error_codes_distinct(a: Error, b: Error)
    requires
        a != b,
    ensures
        error_code(a) != error_code(b),
{
}

} // verus!
