//! The mathematical model of the engine: its state as plain values, what every
//! reachable state satisfies, and the checked arithmetic that the rules use.

use vstd::prelude::*;
use crate::constants::{
    ADL_ONE, BITMAP_WORDS, MAX_ABS_FUNDING_E9_PER_SLOT, MAX_ACCOUNTS, MAX_LIQUIDATION_FEE_BPS,
    MAX_MARGIN_BPS, MAX_ORACLE_PRICE, MAX_POSITION_ABS_Q, MAX_PROTOCOL_FEE_ABS,
    MAX_RESOLVE_PRICE_DEVIATION_BPS, MAX_TRADING_FEE_BPS, MAX_VAULT_TVL, NIL_SLOT,
};
use crate::int128::U128;
use crate::types::{
    Account, InsuranceFund, MarketMode, RiskEngine, RiskError, RiskParams, Side, SideMode,
};
use crate::wide_math::abs_of;

verus! {

/// The state of a market: the fields of [`RiskEngine`], with the bitmap as the
/// used mark of every slot and the tables as sequences.
#[verifier::ext_equal]
pub struct EngineState {
    pub vault: U128,
    pub insurance_fund: InsuranceFund,
    pub params: RiskParams,
    pub current_slot: u64,
    pub market_mode: MarketMode,
    pub resolved_price: u64,
    pub resolved_slot: u64,
    pub resolved_payout_h_num: u128,
    pub resolved_payout_h_den: u128,
    pub resolved_payout_ready: u8,
    pub resolved_k_long_terminal_delta: i128,
    pub resolved_k_short_terminal_delta: i128,
    pub resolved_live_price: u64,
    pub last_crank_slot: u64,
    pub c_tot: U128,
    pub pnl_pos_tot: u128,
    pub pnl_matured_pos_tot: u128,
    pub gc_cursor: u16,
    pub adl_mult_long: u128,
    pub adl_mult_short: u128,
    pub adl_coeff_long: i128,
    pub adl_coeff_short: i128,
    pub adl_epoch_long: u64,
    pub adl_epoch_short: u64,
    pub adl_epoch_start_k_long: i128,
    pub adl_epoch_start_k_short: i128,
    pub oi_eff_long_q: u128,
    pub oi_eff_short_q: u128,
    pub side_mode_long: SideMode,
    pub side_mode_short: SideMode,
    pub stored_pos_count_long: u64,
    pub stored_pos_count_short: u64,
    pub stale_account_count_long: u64,
    pub stale_account_count_short: u64,
    pub phantom_dust_bound_long_q: u128,
    pub phantom_dust_bound_short_q: u128,
    pub materialized_account_count: u64,
    pub neg_pnl_account_count: u64,
    pub last_oracle_price: u64,
    pub fund_px_last: u64,
    pub last_market_slot: u64,
    pub f_long_num: i128,
    pub f_short_num: i128,
    pub f_epoch_start_long_num: i128,
    pub f_epoch_start_short_num: i128,
    pub used: Seq<bool>,
    pub num_used_accounts: u16,
    pub free_head: u16,
    pub next_free: Seq<u16>,
    pub prev_free: Seq<u16>,
    pub accounts: Seq<Account>,
}

/// Bit `b` of a bitmap word.
pub open spec fn bit_of(word: u64, b: int) -> bool {
    ((word >> (b as u64)) & 1) == 1
}

impl View for RiskEngine {
    type V = EngineState;

    open spec fn view(&self) -> EngineState {
        EngineState {
            vault: self.vault,
            insurance_fund: self.insurance_fund,
            params: self.params,
            current_slot: self.current_slot,
            market_mode: self.market_mode,
            resolved_price: self.resolved_price,
            resolved_slot: self.resolved_slot,
            resolved_payout_h_num: self.resolved_payout_h_num,
            resolved_payout_h_den: self.resolved_payout_h_den,
            resolved_payout_ready: self.resolved_payout_ready,
            resolved_k_long_terminal_delta: self.resolved_k_long_terminal_delta,
            resolved_k_short_terminal_delta: self.resolved_k_short_terminal_delta,
            resolved_live_price: self.resolved_live_price,
            last_crank_slot: self.last_crank_slot,
            c_tot: self.c_tot,
            pnl_pos_tot: self.pnl_pos_tot,
            pnl_matured_pos_tot: self.pnl_matured_pos_tot,
            gc_cursor: self.gc_cursor,
            adl_mult_long: self.adl_mult_long,
            adl_mult_short: self.adl_mult_short,
            adl_coeff_long: self.adl_coeff_long,
            adl_coeff_short: self.adl_coeff_short,
            adl_epoch_long: self.adl_epoch_long,
            adl_epoch_short: self.adl_epoch_short,
            adl_epoch_start_k_long: self.adl_epoch_start_k_long,
            adl_epoch_start_k_short: self.adl_epoch_start_k_short,
            oi_eff_long_q: self.oi_eff_long_q,
            oi_eff_short_q: self.oi_eff_short_q,
            side_mode_long: self.side_mode_long,
            side_mode_short: self.side_mode_short,
            stored_pos_count_long: self.stored_pos_count_long,
            stored_pos_count_short: self.stored_pos_count_short,
            stale_account_count_long: self.stale_account_count_long,
            stale_account_count_short: self.stale_account_count_short,
            phantom_dust_bound_long_q: self.phantom_dust_bound_long_q,
            phantom_dust_bound_short_q: self.phantom_dust_bound_short_q,
            materialized_account_count: self.materialized_account_count,
            neg_pnl_account_count: self.neg_pnl_account_count,
            last_oracle_price: self.last_oracle_price,
            fund_px_last: self.fund_px_last,
            last_market_slot: self.last_market_slot,
            f_long_num: self.f_long_num,
            f_short_num: self.f_short_num,
            f_epoch_start_long_num: self.f_epoch_start_long_num,
            f_epoch_start_short_num: self.f_epoch_start_short_num,
            used: Seq::new(MAX_ACCOUNTS as nat, |i: int| bit_of(self.used@[i / 64], i % 64)),
            num_used_accounts: self.num_used_accounts,
            free_head: self.free_head,
            next_free: self.next_free@,
            prev_free: self.prev_free@,
            accounts: self.accounts@,
        }
    }
}

/// Parameters with which a market may be initialized.
pub open spec fn params_valid(p: RiskParams) -> bool {
    &&& 0 < p.max_accounts <= MAX_ACCOUNTS
    &&& 0 < p.max_active_positions_per_side <= p.max_accounts
    &&& p.maintenance_margin_bps <= p.initial_margin_bps <= MAX_MARGIN_BPS
    &&& p.trading_fee_bps <= MAX_TRADING_FEE_BPS
    &&& p.liquidation_fee_bps <= MAX_LIQUIDATION_FEE_BPS
    &&& 0 < p.min_nonzero_mm_req < p.min_nonzero_im_req <= p.min_initial_deposit.v
    &&& p.min_initial_deposit.v <= MAX_VAULT_TVL
    &&& p.min_liquidation_abs.v <= p.liquidation_fee_cap.v <= MAX_PROTOCOL_FEE_ABS
    &&& p.insurance_floor.v <= MAX_VAULT_TVL
    &&& p.h_min <= p.h_max
    &&& 0 < p.h_max
    &&& p.resolve_price_deviation_bps <= MAX_RESOLVE_PRICE_DEVIATION_BPS
    &&& 0 < p.max_accrual_dt_slots
    &&& p.max_abs_funding_e9_per_slot <= MAX_ABS_FUNDING_E9_PER_SLOT
    &&& funding_envelope(p.max_abs_funding_e9_per_slot, p.max_accrual_dt_slots) <= i128::MAX
}

/// The largest change of a funding numerator in one accrual.
pub open spec fn funding_envelope(rate: u64, dt: u64) -> int {
    ADL_ONE * MAX_ORACLE_PRICE * rate * dt
}

/// A free-list link: a slot or the end marker.
pub open spec fn link_ok(l: u16) -> bool {
    l < MAX_ACCOUNTS || l == NIL_SLOT
}

/// A stored position is within the position limit.
pub open spec fn basis_ok(a: Account) -> bool {
    abs_of(a.position_basis_q as int) <= MAX_POSITION_ABS_Q
}

impl EngineState {
    /// What every operation keeps: the tables have one entry for each slot, links
    /// lead to slots, positions are within the limit, side multipliers never exceed
    /// that of a fresh epoch, the frozen payout ratio is at most one, and the
    /// parameters are valid.
    pub open spec fn wf(self) -> bool {
        &&& self.accounts.len() == MAX_ACCOUNTS
        &&& self.used.len() == MAX_ACCOUNTS
        &&& self.next_free.len() == MAX_ACCOUNTS
        &&& self.prev_free.len() == MAX_ACCOUNTS
        &&& params_valid(self.params)
        &&& self.adl_mult_long <= ADL_ONE
        &&& self.adl_mult_short <= ADL_ONE
        &&& self.resolved_payout_h_num <= self.resolved_payout_h_den
        &&& link_ok(self.free_head)
        &&& forall|i: int| 0 <= i < MAX_ACCOUNTS ==> link_ok(#[trigger] self.next_free[i])
        &&& forall|i: int| 0 <= i < MAX_ACCOUNTS ==> link_ok(#[trigger] self.prev_free[i])
        &&& forall|i: int| 0 <= i < MAX_ACCOUNTS ==> basis_ok(#[trigger] self.accounts[i])
    }

    /// Replace one account.
    pub open spec fn with_account(self, i: int, a: Account) -> EngineState {
        EngineState { accounts: self.accounts.update(i, a), ..self }
    }

    /// Whether slot `i` exists and is used.
    pub open spec fn in_use(self, i: int) -> bool {
        0 <= i < MAX_ACCOUNTS && self.used[i]
    }

    /// Conservation of funds: the vault covers all capital and the insurance fund.
    pub open spec fn conserved(self) -> bool {
        self.vault.v >= self.c_tot.v + self.insurance_fund.balance.v
    }

    /// What the vault holds beyond all capital and the insurance fund.
    pub open spec fn residual(self) -> int {
        if self.conserved() {
            self.vault.v - self.c_tot.v - self.insurance_fund.balance.v
        } else {
            0
        }
    }

    /// Both sides carry the same open interest.
    pub open spec fn oi_balanced(self) -> bool {
        self.oi_eff_long_q == self.oi_eff_short_q
    }

    /// What every public operation checks at its end.
    pub open spec fn postconditions(self) -> Result<EngineState, RiskError> {
        if self.conserved() && self.oi_balanced() {
            Ok(self)
        } else {
            Err(RiskError::CorruptState)
        }
    }

    pub open spec fn a_side(self, s: Side) -> u128 {
        match s {
            Side::Long => self.adl_mult_long,
            Side::Short => self.adl_mult_short,
        }
    }

    pub open spec fn k_side(self, s: Side) -> i128 {
        match s {
            Side::Long => self.adl_coeff_long,
            Side::Short => self.adl_coeff_short,
        }
    }

    pub open spec fn epoch_side(self, s: Side) -> u64 {
        match s {
            Side::Long => self.adl_epoch_long,
            Side::Short => self.adl_epoch_short,
        }
    }

    pub open spec fn k_epoch_start(self, s: Side) -> i128 {
        match s {
            Side::Long => self.adl_epoch_start_k_long,
            Side::Short => self.adl_epoch_start_k_short,
        }
    }

    pub open spec fn f_side(self, s: Side) -> i128 {
        match s {
            Side::Long => self.f_long_num,
            Side::Short => self.f_short_num,
        }
    }

    pub open spec fn f_epoch_start(self, s: Side) -> i128 {
        match s {
            Side::Long => self.f_epoch_start_long_num,
            Side::Short => self.f_epoch_start_short_num,
        }
    }

    pub open spec fn side_mode(self, s: Side) -> SideMode {
        match s {
            Side::Long => self.side_mode_long,
            Side::Short => self.side_mode_short,
        }
    }

    pub open spec fn oi_eff(self, s: Side) -> u128 {
        match s {
            Side::Long => self.oi_eff_long_q,
            Side::Short => self.oi_eff_short_q,
        }
    }

    pub open spec fn stale_count(self, s: Side) -> u64 {
        match s {
            Side::Long => self.stale_account_count_long,
            Side::Short => self.stale_account_count_short,
        }
    }

    pub open spec fn stored_pos_count(self, s: Side) -> u64 {
        match s {
            Side::Long => self.stored_pos_count_long,
            Side::Short => self.stored_pos_count_short,
        }
    }

    pub open spec fn dust_bound(self, s: Side) -> u128 {
        match s {
            Side::Long => self.phantom_dust_bound_long_q,
            Side::Short => self.phantom_dust_bound_short_q,
        }
    }

    pub open spec fn with_a_side(self, s: Side, v: u128) -> EngineState {
        match s {
            Side::Long => EngineState { adl_mult_long: v, ..self },
            Side::Short => EngineState { adl_mult_short: v, ..self },
        }
    }

    pub open spec fn with_k_side(self, s: Side, v: i128) -> EngineState {
        match s {
            Side::Long => EngineState { adl_coeff_long: v, ..self },
            Side::Short => EngineState { adl_coeff_short: v, ..self },
        }
    }

    pub open spec fn with_side_mode(self, s: Side, v: SideMode) -> EngineState {
        match s {
            Side::Long => EngineState { side_mode_long: v, ..self },
            Side::Short => EngineState { side_mode_short: v, ..self },
        }
    }

    pub open spec fn with_oi_eff(self, s: Side, v: u128) -> EngineState {
        match s {
            Side::Long => EngineState { oi_eff_long_q: v, ..self },
            Side::Short => EngineState { oi_eff_short_q: v, ..self },
        }
    }

    pub open spec fn with_stale_count(self, s: Side, v: u64) -> EngineState {
        match s {
            Side::Long => EngineState { stale_account_count_long: v, ..self },
            Side::Short => EngineState { stale_account_count_short: v, ..self },
        }
    }

    pub open spec fn with_dust_bound(self, s: Side, v: u128) -> EngineState {
        match s {
            Side::Long => EngineState { phantom_dust_bound_long_q: v, ..self },
            Side::Short => EngineState { phantom_dust_bound_short_q: v, ..self },
        }
    }

    pub open spec fn with_insurance(self, v: u128) -> EngineState {
        EngineState { insurance_fund: InsuranceFund { balance: U128 { v } }, ..self }
    }

    pub open spec fn at_slot(self, slot: u64) -> EngineState {
        EngineState { current_slot: slot, ..self }
    }

    pub open spec fn is_live(self) -> bool {
        self.market_mode == MarketMode::Live
    }
}

impl RiskEngine {
    /// The engine is in a state that its operations keep.
    pub open spec fn wf(&self) -> bool {
        &&& self.used@.len() == BITMAP_WORDS
        &&& self@.wf()
    }
}

/// The value as `u128`, or the error where it is out of range.
pub open spec fn u128_or(v: int, e: RiskError) -> Result<u128, RiskError> {
    if 0 <= v <= u128::MAX {
        Ok(v as u128)
    } else {
        Err(e)
    }
}

/// The value as `i128`, or the error where it is out of range.
pub open spec fn i128_or(v: int, e: RiskError) -> Result<i128, RiskError> {
    if i128::MIN <= v <= i128::MAX {
        Ok(v as i128)
    } else {
        Err(e)
    }
}

/// The value as `u64`, or the error where it is out of range.
pub open spec fn u64_or(v: int, e: RiskError) -> Result<u64, RiskError> {
    if 0 <= v <= u64::MAX {
        Ok(v as u64)
    } else {
        Err(e)
    }
}

/// An operation gave `r` and left the state `post`, as the model says: the model
/// gives that state where the operation succeeds, and the same error where it
/// fails.
pub open spec fn agrees<T>(
    model: Result<(EngineState, T), RiskError>,
    r: Result<T, RiskError>,
    post: EngineState,
) -> bool {
    match r {
        Ok(v) => model == Ok::<(EngineState, T), RiskError>((post, v)),
        Err(e) => model == Err::<(EngineState, T), RiskError>(e),
    }
}

/// As [`agrees`], for operations without a result value.
pub open spec fn agrees_unit(
    model: Result<EngineState, RiskError>,
    r: Result<(), RiskError>,
    post: EngineState,
) -> bool {
    match r {
        Ok(_) => model == Ok::<EngineState, RiskError>(post),
        Err(e) => model == Err::<EngineState, RiskError>(e),
    }
}

} // verus!
