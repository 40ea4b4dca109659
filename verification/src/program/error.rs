//! What an instruction of the program can fail with.

use vstd::prelude::*;

verus! {

/// Program errors. Clients tell them apart by [`PercolatorError::code`].
#[derive(Clone, Copy, Debug, PartialEq, Eq, Structural)]
pub enum PercolatorError {
    /// Instruction without an implementation.
    NotImplemented,
    /// Instruction data could not be decoded.
    InvalidInstructionData,
    /// Slab account is already initialized.
    SlabAlreadyInitialized,
    /// Slab account has unexpected size.
    SlabSizeMismatch,
    /// Missing required account.
    MissingAccount,
    /// Account not writable.
    AccountNotWritable,
    /// Signer required but not provided.
    MissingSigner,
    /// System program account mismatch.
    InvalidSystemProgram,
    /// Slab engine region already initialized.
    AlreadyInitialized,
    /// Slab header not yet written; run CreateSlab first.
    SlabNotInitialized,
    /// RiskParams failed validation.
    InvalidRiskParams,
    /// Signer is not the slab creator on record.
    WrongSigner,
    /// Mint does not match the slab's recorded mint.
    WrongMint,
    /// Vault token account does not match the derived PDA.
    VaultPdaMismatch,
    /// Token account owner does not match expected.
    TokenAccountWrongOwner,
    /// Token account mint does not match expected.
    TokenAccountWrongMint,
    /// Amount must be non-zero.
    ZeroAmount,
    /// Token program account mismatch.
    InvalidTokenProgram,
    /// Slab is at capacity; no free account slot.
    SlabFull,
    /// Engine rejected the operation.
    EngineError,
    /// Oracle price is stale or zero.
    StaleOracle,
    /// Oracle price is outside the slippage bounds.
    SlippageExceeded,
    /// Side is in DrainOnly or ResetPending mode; new OI not allowed.
    DrainOnly,
    /// Invalid side discriminator; expected 0 (long) or 1 (short).
    InvalidSide,
    /// Protocol LP (slot 0) has not been bootstrapped yet.
    LpNotBootstrapped,
    /// Protocol LP is already bootstrapped.
    LpAlreadyBootstrapped,
    /// Zero-size order.
    ZeroSize,
    /// Account is above maintenance margin and cannot be liquidated.
    AccountHealthy,
    /// Victim slot index is out of range or unused.
    InvalidVictimSlot,
    /// Victim slot targets the protocol LP; not liquidatable.
    ProtocolLpNotLiquidatable,
    /// Invalid Crank kind discriminator.
    InvalidCrankKind,
    /// Crank had no work to do at this slot.
    NothingToDo,
    /// Treasury account pubkey does not match TREASURY_PUBKEY.
    WrongTreasury,
    /// Listing fee below the floor.
    ListingFeeTooLow,
}

/// The number of an error.
pub open spec fn percolator_code(e: PercolatorError) -> u32 {
    match e {
        PercolatorError::NotImplemented => 0,
        PercolatorError::InvalidInstructionData => 1,
        PercolatorError::SlabAlreadyInitialized => 2,
        PercolatorError::SlabSizeMismatch => 3,
        PercolatorError::MissingAccount => 4,
        PercolatorError::AccountNotWritable => 5,
        PercolatorError::MissingSigner => 6,
        PercolatorError::InvalidSystemProgram => 7,
        PercolatorError::AlreadyInitialized => 8,
        PercolatorError::SlabNotInitialized => 9,
        PercolatorError::InvalidRiskParams => 10,
        PercolatorError::WrongSigner => 11,
        PercolatorError::WrongMint => 12,
        PercolatorError::VaultPdaMismatch => 13,
        PercolatorError::TokenAccountWrongOwner => 14,
        PercolatorError::TokenAccountWrongMint => 15,
        PercolatorError::ZeroAmount => 16,
        PercolatorError::InvalidTokenProgram => 17,
        PercolatorError::SlabFull => 18,
        PercolatorError::EngineError => 19,
        PercolatorError::StaleOracle => 20,
        PercolatorError::SlippageExceeded => 21,
        PercolatorError::DrainOnly => 22,
        PercolatorError::InvalidSide => 23,
        PercolatorError::LpNotBootstrapped => 24,
        PercolatorError::LpAlreadyBootstrapped => 25,
        PercolatorError::ZeroSize => 26,
        PercolatorError::AccountHealthy => 27,
        PercolatorError::InvalidVictimSlot => 28,
        PercolatorError::ProtocolLpNotLiquidatable => 29,
        PercolatorError::InvalidCrankKind => 30,
        PercolatorError::NothingToDo => 31,
        PercolatorError::WrongTreasury => 32,
        PercolatorError::ListingFeeTooLow => 33,
    }
}

impl PercolatorError {
    /// The number under which the error is reported.
    pub fn code(self) -> (r: u32)
        ensures
            r == percolator_code(self),
    {
        match self {
            PercolatorError::NotImplemented => 0,
            PercolatorError::InvalidInstructionData => 1,
            PercolatorError::SlabAlreadyInitialized => 2,
            PercolatorError::SlabSizeMismatch => 3,
            PercolatorError::MissingAccount => 4,
            PercolatorError::AccountNotWritable => 5,
            PercolatorError::MissingSigner => 6,
            PercolatorError::InvalidSystemProgram => 7,
            PercolatorError::AlreadyInitialized => 8,
            PercolatorError::SlabNotInitialized => 9,
            PercolatorError::InvalidRiskParams => 10,
            PercolatorError::WrongSigner => 11,
            PercolatorError::WrongMint => 12,
            PercolatorError::VaultPdaMismatch => 13,
            PercolatorError::TokenAccountWrongOwner => 14,
            PercolatorError::TokenAccountWrongMint => 15,
            PercolatorError::ZeroAmount => 16,
            PercolatorError::InvalidTokenProgram => 17,
            PercolatorError::SlabFull => 18,
            PercolatorError::EngineError => 19,
            PercolatorError::StaleOracle => 20,
            PercolatorError::SlippageExceeded => 21,
            PercolatorError::DrainOnly => 22,
            PercolatorError::InvalidSide => 23,
            PercolatorError::LpNotBootstrapped => 24,
            PercolatorError::LpAlreadyBootstrapped => 25,
            PercolatorError::ZeroSize => 26,
            PercolatorError::AccountHealthy => 27,
            PercolatorError::InvalidVictimSlot => 28,
            PercolatorError::ProtocolLpNotLiquidatable => 29,
            PercolatorError::InvalidCrankKind => 30,
            PercolatorError::NothingToDo => 31,
            PercolatorError::WrongTreasury => 32,
            PercolatorError::ListingFeeTooLow => 33,
        }
    }
}

/// No two errors share a number.
pub proof fn percolator_codes_are_distinct(a: PercolatorError, b: PercolatorError)
    ensures
        percolator_code(a) == percolator_code(b) ==> a == b,
{
}

} // verus!
