//! Data types of the engine: accounts, parameters, the engine state itself,
//! the per-instruction context, and the results that operations give.

use vstd::prelude::*;
use crate::constants::{MAX_TOUCHED_PER_INSTRUCTION, ADL_ONE};
use crate::int128::{I128, U128};

verus! {

/// Whether the market trades or has been resolved.
#[derive(Clone, Copy, Debug, PartialEq, Eq, Structural)]
pub enum MarketMode {
    Live,
    Resolved,
}

/// Which branch of market resolution the caller selects.
#[derive(Clone, Copy, Debug, PartialEq, Eq, Structural)]
pub enum ResolveMode {
    /// Accrue to the resolution slot first, and hold the resolution price to the
    /// deviation band.
    Ordinary,
    /// Recovery: no further accrual and no band. Needs the last oracle price and a
    /// zero funding rate as its inputs.
    Degenerate,
}

/// How a change of PnL treats a positive increase.
#[derive(Clone, Copy, Debug, PartialEq, Eq, Structural)]
pub enum ReserveMode {
    /// The engine picks one of the two warmup horizons.
    UseAdmissionPair(u64, u64),
    /// The increase matures at once; only in a resolved market.
    ImmediateReleaseResolvedOnly,
    /// A positive increase is an error.
    NoPositiveIncreaseAllowed,
}

/// What one side of the market currently allows.
#[derive(Clone, Copy, Debug, PartialEq, Eq, Structural)]
pub enum SideMode {
    Normal,
    DrainOnly,
    ResetPending,
}

/// The side of a signed position: positive is long, negative is short.
#[derive(Clone, Copy, Debug, PartialEq, Eq, Structural)]
pub enum Side {
    Long,
    Short,
}

#[derive(Clone, Copy, Debug, PartialEq, Eq, Structural)]
pub enum RiskError {
    InsufficientBalance,
    Undercollateralized,
    Unauthorized,
    PnlNotWarmedUp,
    Overflow,
    AccountNotFound,
    SideBlocked,
    CorruptState,
}

/// What a forced close in a resolved market came to.
#[derive(Clone, Copy, Debug, PartialEq, Eq, Structural)]
pub enum ResolvedCloseResult {
    /// Reconciled, but the payout is not ready; the account is still open.
    ProgressOnly,
    /// Closed and freed, with this payout.
    Closed(u128),
}

impl ResolvedCloseResult {
    /// The payout of a closed account.
    pub fn expect_closed(self, _msg: &str) -> (r: u128)
        requires
            self is Closed,
        ensures
            self == ResolvedCloseResult::Closed(r),
    {
        match self {
            ResolvedCloseResult::Closed(cap) => cap,
            ResolvedCloseResult::ProgressOnly => 0,
        }
    }

    /// Whether the account is still open.
    pub fn is_progress_only(self) -> (r: bool)
        ensures
            r == (self is ProgressOnly),
    {
        match self {
            ResolvedCloseResult::ProgressOnly => true,
            ResolvedCloseResult::Closed(_) => false,
        }
    }
}

#[derive(Clone, Copy, Debug, PartialEq, Eq, Structural)]
pub enum LiquidationPolicy {
    FullClose,
    /// Close exactly this base quantity.
    ExactPartial(u128),
}

/// What a keeper crank did.
#[derive(Clone, Copy, Debug, PartialEq, Eq, Structural)]
pub struct CrankOutcome {
    pub advanced: bool,
    pub num_liquidations: u32,
    pub num_gc_closed: u32,
}

/// State that lives for one instruction: side resets to schedule at its end,
/// the admission pair, and the accounts it touched.
#[derive(Clone, Copy, Debug)]
pub struct InstructionContext {
    pub pending_reset_long: bool,
    pub pending_reset_short: bool,
    pub admit_h_min_shared: u64,
    pub admit_h_max_shared: u64,
    /// The first `touched_count` entries are the accounts touched, in ascending
    /// order and without repetition.
    pub touched_accounts: [u16; MAX_TOUCHED_PER_INSTRUCTION],
    pub touched_count: u8,
    /// The first `h_max_sticky_count` entries are the accounts that were admitted
    /// at the longer horizon.
    pub h_max_sticky_accounts: [u16; MAX_TOUCHED_PER_INSTRUCTION],
    pub h_max_sticky_count: u8,
}

/// One account.
#[derive(Clone, Copy, Debug, PartialEq, Eq)]
pub struct Account {
    pub capital: U128,
    /// `Account::KIND_USER` or `Account::KIND_LP`; the engine never decides by it.
    pub kind: u8,
    /// Realized PnL.
    pub pnl: i128,
    /// The part of the positive PnL that is still warming up.
    pub reserved_pnl: u128,
    /// Signed base quantity at the last attachment.
    pub position_basis_q: i128,
    /// Side multiplier at the last attachment.
    pub adl_a_basis: u128,
    /// Side coefficient `K` up to which the account is settled.
    pub adl_k_snap: i128,
    /// Funding numerator up to which the account is settled.
    pub f_snap: i128,
    /// Side epoch at the last attachment.
    pub adl_epoch_snap: u64,
    pub matcher_program: [u8; 32],
    pub matcher_context: [u8; 32],
    /// Zero as long as nobody has claimed the account.
    pub owner: [u8; 32],
    /// Never positive in use: a negative balance is fee debt.
    pub fee_credits: I128,
    /// Slot up to which the recurring fee has been charged.
    pub last_fee_slot: u64,
    /// The scheduled reserve bucket, which matures linearly.
    pub sched_present: u8,
    pub sched_remaining_q: u128,
    pub sched_anchor_q: u128,
    pub sched_start_slot: u64,
    pub sched_horizon: u64,
    pub sched_release_q: u128,
    /// The pending reserve bucket, which does not mature yet.
    pub pending_present: u8,
    pub pending_remaining_q: u128,
    pub pending_horizon: u64,
    pub pending_created_slot: u64,
}

impl Account {
    pub const KIND_USER: u8 = 0;

    pub const KIND_LP: u8 = 1;

    pub fn is_lp(&self) -> (r: bool)
        ensures
            r == (self.kind == Account::KIND_LP),
    {
        self.kind == Account::KIND_LP
    }

    pub fn is_user(&self) -> (r: bool)
        ensures
            r == (self.kind == Account::KIND_USER),
    {
        self.kind == Account::KIND_USER
    }

    /// An account as it is before anything happened to it: no balance, no PnL, no
    /// position, no reserve, nobody's, anchored at the given fee slot.
    pub open spec fn is_blank(self, fee_slot: u64) -> bool {
        &&& self.capital.v == 0
        &&& self.kind == Account::KIND_USER
        &&& self.pnl == 0
        &&& self.reserved_pnl == 0
        &&& self.position_basis_q == 0
        &&& self.adl_a_basis == ADL_ONE
        &&& self.adl_k_snap == 0
        &&& self.f_snap == 0
        &&& self.adl_epoch_snap == 0
        &&& self.matcher_program@ == zero_key()
        &&& self.matcher_context@ == zero_key()
        &&& self.owner@ == zero_key()
        &&& self.fee_credits.v == 0
        &&& self.last_fee_slot == fee_slot
        &&& self.no_buckets()
    }

    /// Both reserve buckets absent and cleared.
    pub open spec fn no_buckets(self) -> bool {
        &&& self.sched_present == 0
        &&& self.sched_remaining_q == 0
        &&& self.sched_anchor_q == 0
        &&& self.sched_start_slot == 0
        &&& self.sched_horizon == 0
        &&& self.sched_release_q == 0
        &&& self.pending_present == 0
        &&& self.pending_remaining_q == 0
        &&& self.pending_horizon == 0
        &&& self.pending_created_slot == 0
    }
}

/// Thirty-two zero bytes.
pub open spec fn zero_key() -> Seq<u8> {
    Seq::new(32, |i: int| 0u8)
}

/// The blank account anchored at `fee_slot`.
pub open spec fn blank(fee_slot: u64) -> Account {
    choose|a: Account| a.is_blank(fee_slot)
}

/// There is one blank account for each fee slot.
pub proof fn blank_is_unique(a: Account, fee_slot: u64)
    requires
        a.is_blank(fee_slot),
    ensures
        a == blank(fee_slot),
        blank(fee_slot).is_blank(fee_slot),
{
    let b = blank(fee_slot);
    assert(b.is_blank(fee_slot));
    assert(a.matcher_program =~= b.matcher_program);
    assert(a.matcher_context =~= b.matcher_context);
    assert(a.owner =~= b.owner);
}

/// Make the blank account anchored at `fee_slot`.
pub fn empty_account(fee_slot: u64) -> (r: Account)
    ensures
        r == blank(fee_slot),
        r.is_blank(fee_slot),
{
    let z: [u8; 32] = [0; 32];
    assert(z@ =~= zero_key());
    let r = Account {
        capital: U128 { v: 0 },
        kind: Account::KIND_USER,
        pnl: 0,
        reserved_pnl: 0,
        position_basis_q: 0,
        adl_a_basis: ADL_ONE,
        adl_k_snap: 0,
        f_snap: 0,
        adl_epoch_snap: 0,
        matcher_program: z,
        matcher_context: z,
        owner: z,
        fee_credits: I128 { v: 0 },
        last_fee_slot: fee_slot,
        sched_present: 0,
        sched_remaining_q: 0,
        sched_anchor_q: 0,
        sched_start_slot: 0,
        sched_horizon: 0,
        sched_release_q: 0,
        pending_present: 0,
        pending_remaining_q: 0,
        pending_horizon: 0,
        pending_created_slot: 0,
    };
    proof {
        blank_is_unique(r, fee_slot);
    }
    r
}

#[derive(Clone, Copy, Debug, PartialEq, Eq, Structural)]
pub struct InsuranceFund {
    pub balance: U128,
}

/// Parameters of one market, fixed when it is initialized.
#[derive(Clone, Copy, Debug, PartialEq, Eq, Structural)]
pub struct RiskParams {
    pub maintenance_margin_bps: u64,
    pub initial_margin_bps: u64,
    pub trading_fee_bps: u64,
    pub max_accounts: u64,
    pub max_crank_staleness_slots: u64,
    pub liquidation_fee_bps: u64,
    pub liquidation_fee_cap: U128,
    pub min_liquidation_abs: U128,
    pub min_initial_deposit: U128,
    /// Margin floors for any open position.
    pub min_nonzero_mm_req: u128,
    pub min_nonzero_im_req: u128,
    pub insurance_floor: U128,
    /// Bounds of the warmup horizon.
    pub h_min: u64,
    pub h_max: u64,
    pub resolve_price_deviation_bps: u64,
    /// Most slots that one accrual may cover.
    pub max_accrual_dt_slots: u64,
    pub max_abs_funding_e9_per_slot: u64,
    pub min_funding_lifetime_slots: u64,
    pub max_active_positions_per_side: u64,
}

/// The state of one market.
#[derive(Clone, Debug, PartialEq, Eq)]
pub struct RiskEngine {
    pub vault: U128,
    pub insurance_fund: InsuranceFund,
    pub params: RiskParams,
    pub current_slot: u64,
    pub market_mode: MarketMode,
    pub resolved_price: u64,
    pub resolved_slot: u64,
    /// Payout ratio of a resolved market, frozen when `resolved_payout_ready` is
    /// set.
    pub resolved_payout_h_num: u128,
    pub resolved_payout_h_den: u128,
    pub resolved_payout_ready: u8,
    /// Settlement shifts of the two sides' `K`.
    pub resolved_k_long_terminal_delta: i128,
    pub resolved_k_short_terminal_delta: i128,
    pub resolved_live_price: u64,
    pub last_crank_slot: u64,
    /// Sum of the accounts' capital.
    pub c_tot: U128,
    /// Sum of the accounts' positive PnL.
    pub pnl_pos_tot: u128,
    /// The part of `pnl_pos_tot` that is not reserved.
    pub pnl_matured_pos_tot: u128,
    pub gc_cursor: u16,
    pub adl_mult_long: u128,
    pub adl_mult_short: u128,
    pub adl_coeff_long: i128,
    pub adl_coeff_short: i128,
    pub adl_epoch_long: u64,
    pub adl_epoch_short: u64,
    pub adl_epoch_start_k_long: i128,
    pub adl_epoch_start_k_short: i128,
    /// Effective open interest.
    pub oi_eff_long_q: u128,
    pub oi_eff_short_q: u128,
    pub side_mode_long: SideMode,
    pub side_mode_short: SideMode,
    /// Number of accounts with a stored position on the side.
    pub stored_pos_count_long: u64,
    pub stored_pos_count_short: u64,
    /// Number of those that still belong to the previous epoch.
    pub stale_account_count_long: u64,
    pub stale_account_count_short: u64,
    /// Bounds on the open interest that rounding has left without a holder.
    pub phantom_dust_bound_long_q: u128,
    pub phantom_dust_bound_short_q: u128,
    pub materialized_account_count: u64,
    /// Number of accounts with negative PnL.
    pub neg_pnl_account_count: u64,
    pub last_oracle_price: u64,
    pub fund_px_last: u64,
    pub last_market_slot: u64,
    /// Cumulative funding numerators.
    pub f_long_num: i128,
    pub f_short_num: i128,
    pub f_epoch_start_long_num: i128,
    pub f_epoch_start_short_num: i128,
    /// Bitmap of used slots, 64 to a word.
    pub used: Vec<u64>,
    pub num_used_accounts: u16,
    /// Head of the doubly linked list of free slots.
    pub free_head: u16,
    pub next_free: Vec<u16>,
    pub prev_free: Vec<u16>,
    pub accounts: Vec<Account>,
}

/// The side of a signed quantity.
pub open spec fn side_of(v: int) -> Option<Side> {
    if v == 0 {
        None
    } else if v > 0 {
        Some(Side::Long)
    } else {
        Some(Side::Short)
    }
}

/// The other side.
pub open spec fn other_side(s: Side) -> Side {
    match s {
        Side::Long => Side::Short,
        Side::Short => Side::Long,
    }
}

pub fn side_of_i128(v: i128) -> (r: Option<Side>)
    ensures
        r == side_of(v as int),
{
    if v == 0 {
        None
    } else if v > 0 {
        Some(Side::Long)
    } else {
        Some(Side::Short)
    }
}

pub fn opposite_side(s: Side) -> (r: Side)
    ensures
        r == other_side(s),
{
    match s {
        Side::Long => Side::Short,
        Side::Short => Side::Long,
    }
}

} // verus!
