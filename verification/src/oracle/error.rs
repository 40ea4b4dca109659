//! What an instruction of the oracle can fail with.

use vstd::prelude::*;

verus! {

/// Oracle errors. Clients tell them apart by [`OracleError::code`].
#[derive(Clone, Copy, Debug, PartialEq, Eq, Structural)]
pub enum OracleError {
    /// Instruction data could not be decoded.
    InvalidInstructionData,
    /// Feed account has unexpected size.
    FeedSizeMismatch,
    /// Feed account is already initialized.
    FeedAlreadyInitialized,
    /// Feed account is not yet initialized.
    FeedNotInitialized,
    /// Missing required account.
    MissingAccount,
    /// Account not writable.
    AccountNotWritable,
    /// Source account mismatch (pubkey or owner).
    WrongSourceAccount,
    /// Source reserves/data indicate a stale or empty pool.
    StaleSource,
    /// Unknown source_kind discriminator.
    InvalidSourceKind,
    /// Graduation requires the source's `complete` flag to be set.
    NotGraduated,
    /// Feed is already graduated.
    AlreadyGraduated,
    /// The feed must be graduated before its source can change.
    ConvertRequiresGraduation,
    /// Arithmetic overflow in price computation.
    Overflow,
    /// Invalid risk parameters.
    InvalidParameters,
}

/// The number of an error.
pub open spec fn oracle_code(e: OracleError) -> u32 {
    match e {
        OracleError::InvalidInstructionData => 0,
        OracleError::FeedSizeMismatch => 1,
        OracleError::FeedAlreadyInitialized => 2,
        OracleError::FeedNotInitialized => 3,
        OracleError::MissingAccount => 4,
        OracleError::AccountNotWritable => 5,
        OracleError::WrongSourceAccount => 6,
        OracleError::StaleSource => 7,
        OracleError::InvalidSourceKind => 8,
        OracleError::NotGraduated => 9,
        OracleError::AlreadyGraduated => 10,
        OracleError::ConvertRequiresGraduation => 11,
        OracleError::Overflow => 12,
        OracleError::InvalidParameters => 13,
    }
}

impl OracleError {
    /// The number under which the error is reported.
    pub fn code(self) -> (r: u32)
        ensures
            r == oracle_code(self),
    {
        match self {
            OracleError::InvalidInstructionData => 0,
            OracleError::FeedSizeMismatch => 1,
            OracleError::FeedAlreadyInitialized => 2,
            OracleError::FeedNotInitialized => 3,
            OracleError::MissingAccount => 4,
            OracleError::AccountNotWritable => 5,
            OracleError::WrongSourceAccount => 6,
            OracleError::StaleSource => 7,
            OracleError::InvalidSourceKind => 8,
            OracleError::NotGraduated => 9,
            OracleError::AlreadyGraduated => 10,
            OracleError::ConvertRequiresGraduation => 11,
            OracleError::Overflow => 12,
            OracleError::InvalidParameters => 13,
        }
    }
}

/// No two errors share a number.
pub proof fn oracle_codes_are_distinct(a: OracleError, b: OracleError)
    ensures
        oracle_code(a) == oracle_code(b) ==> a == b,
{
}

} // verus!
