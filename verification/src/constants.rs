//! Capacity limits, fixed-point scales and normative bounds of the engine.

use vstd::prelude::*;

verus! {

/// Number of account slots in one market.
pub const MAX_ACCOUNTS: usize = 4096;

/// Number of 64-bit words in the used-slot bitmap.
pub const BITMAP_WORDS: usize = 64;

pub const MAX_ROUNDING_SLACK: u128 = 4096;

/// Most slots that one garbage collection frees.
pub const GC_CLOSE_BUDGET: u32 = 32;

/// Most slots that one garbage collection looks at.
pub const ACCOUNTS_PER_CRANK: u16 = 128;

pub const LIQ_BUDGET_PER_CRANK: u16 = 64;

/// Base quantities are fixed-point numbers with this scale.
pub const POS_SCALE: u128 = 1_000_000;

/// The side multiplier `A` of a fresh epoch.
pub const ADL_ONE: u128 = 1_000_000_000_000_000;

/// A side whose multiplier falls below this only drains.
pub const MIN_A_SIDE: u128 = 100_000_000_000_000;

pub const MAX_ORACLE_PRICE: u64 = 1_000_000_000_000;

/// Denominator of the cumulative funding numerators.
pub const FUNDING_DEN: u128 = 1_000_000_000;

pub const MAX_ABS_FUNDING_E9_PER_SLOT: i128 = 1_000_000_000;

pub const MAX_VAULT_TVL: u128 = 10_000_000_000_000_000;

pub const MAX_POSITION_ABS_Q: u128 = 100_000_000_000_000;

pub const MAX_ACCOUNT_NOTIONAL: u128 = 100_000_000_000_000_000_000;

pub const MAX_TRADE_SIZE_Q: u128 = 100_000_000_000_000;

pub const MAX_OI_SIDE_Q: u128 = 100_000_000_000_000;

pub const MAX_MATERIALIZED_ACCOUNTS: u64 = 1_000_000;

pub const MAX_ACCOUNT_POSITIVE_PNL: u128 = 100_000_000_000_000_000_000_000_000_000_000;

pub const MAX_PNL_POS_TOT: u128 = 100_000_000_000_000_000_000_000_000_000_000_000_000;

pub const MAX_TRADING_FEE_BPS: u64 = 10_000;

pub const MAX_MARGIN_BPS: u64 = 10_000;

pub const MAX_LIQUIDATION_FEE_BPS: u64 = 10_000;

pub const MAX_PROTOCOL_FEE_ABS: u128 = 1_000_000_000_000_000_000_000_000_000_000_000_000;

pub const MAX_WARMUP_SLOTS: u64 = 18_446_744_073_709_551_615;

pub const MAX_RESOLVE_PRICE_DEVIATION_BPS: u64 = 10_000;

/// Most accounts that one instruction may touch.
pub const MAX_TOUCHED_PER_INSTRUCTION: usize = 64;

/// End marker of the free list.
pub const NIL_SLOT: u16 = 65_535;

} // verus!
