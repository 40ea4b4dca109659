//! Resolving a market, and winding its accounts down afterwards.

use vstd::prelude::*;
use crate::constants::{MAX_ACCOUNTS, MAX_ORACLE_PRICE, POS_SCALE};
use crate::engine::accounts::price_ok;
use crate::engine::equity::lemma_haircut_shrinks;
use crate::engine::positions::index_pnl_or_overflow;
use crate::engine::trade::{checked_u128_mul_i128, symmetric_i128_or};
use crate::int128::I128;
use crate::model::{agrees, agrees_unit, basis_ok, i128_or, u128_or, EngineState};
use crate::types::{
    side_of, Account, MarketMode, ReserveMode, ResolveMode, ResolvedCloseResult, RiskEngine, RiskError,
    Side, SideMode,
};
use crate::wide_math::{abs_i128, abs_of, min_of, min_u128, mul_div_floor_u128, muldiv, I256};

verus! {

/// The resolution price is within the deviation band around the last price.
pub open spec fn within_band(resolved: u64, last: u64, bps: u64) -> bool {
    abs_of(resolved - last) * 10_000 <= bps * last
}

impl EngineState {
    /// The market brought to the resolution slot.
    pub open spec fn before_resolution(
        self,
        mode: ResolveMode,
        live: u64,
        now: u64,
        rate: i128,
    ) -> Result<EngineState, RiskError> {
        match mode {
            ResolveMode::Degenerate => {
                if live != self.last_oracle_price || rate != 0 {
                    Err(RiskError::Overflow)
                } else {
                    Ok(EngineState { current_slot: now, last_market_slot: now, ..self })
                }
            },
            ResolveMode::Ordinary => self.accrue(now, live, rate),
        }
    }

    /// The settlement shift of a side's `K`.
    pub open spec fn terminal_delta(self, s: Side, price_diff: int) -> Result<i128, RiskError> {
        if self.side_mode(s) == SideMode::ResetPending {
            Ok(0)
        } else {
            symmetric_i128_or(self.a_side(s) * price_diff, RiskError::Overflow)
        }
    }

    /// The reset of a side where it is not under way already.
    pub open spec fn drain_side(self, s: Side) -> Result<EngineState, RiskError> {
        if self.side_mode(s) != SideMode::ResetPending {
            self.begin_reset(s)
        } else {
            Ok(self)
        }
    }

    /// Resolve the market at a settlement price: all positive PnL matures, open
    /// interest ends, and both sides are reset.
    #[verifier::opaque]
    pub open spec fn resolve_market(
        self,
        mode: ResolveMode,
        resolved_price: u64,
        live_price: u64,
        now: u64,
        rate: i128,
    ) -> Result<EngineState, RiskError> {
        if !self.is_live() {
            Err(RiskError::Unauthorized)
        } else if self.current_slot > now || self.last_market_slot > now {
            Err(RiskError::Overflow)
        } else if !price_ok(resolved_price) || !price_ok(live_price) {
            Err(RiskError::Overflow)
        } else {
            match self.before_resolution(mode, live_price, now, rate) {
                Err(e) => Err(e),
                Ok(s1) => {
                    if !(mode == ResolveMode::Degenerate || within_band(
                            resolved_price,
                            s1.last_oracle_price,
                            s1.params.resolve_price_deviation_bps,
                    )) {
                        Err(RiskError::Overflow)
                    } else {
                        let diff = resolved_price - live_price;
                        match s1.terminal_delta(Side::Long, diff) {
                            Err(e) => Err(e),
                            Ok(k_long) => match s1.terminal_delta(Side::Short, -diff) {
                                Err(e) => Err(e),
                                Ok(k_short) => {
                                    let s2 = EngineState {
                                        current_slot: now,
                                        market_mode: MarketMode::Resolved,
                                        resolved_price,
                                        resolved_live_price: live_price,
                                        resolved_slot: now,
                                        resolved_k_long_terminal_delta: k_long,
                                        resolved_k_short_terminal_delta: k_short,
                                        resolved_payout_h_num: 0,
                                        resolved_payout_h_den: 0,
                                        resolved_payout_ready: 0,
                                        pnl_matured_pos_tot: s1.pnl_pos_tot,
                                        oi_eff_long_q: 0,
                                        oi_eff_short_q: 0,
                                        ..s1
                                    };
                                    match s2.drain_side(Side::Long) {
                                        Err(e) => Err(e),
                                        Ok(s3) => match s3.drain_side(Side::Short) {
                                            Err(e) => Err(e),
                                            Ok(s4) => s4.reopen_ready().postconditions(),
                                        },
                                    }
                                },
                            },
                        }
                    }
                },
            }
        }
    }

    /// The settlement shift that positions of a side get.
    pub open spec fn terminal_shift(self, s: Side) -> i128 {
        match s {
            Side::Long => self.resolved_k_long_terminal_delta,
            Side::Short => self.resolved_k_short_terminal_delta,
        }
    }

    /// End the stale position of account `i` in a resolved market: it gets what the
    /// indices owe it at settlement.
    #[verifier::opaque]
    pub open spec fn settle_terminal(self, i: int) -> Result<EngineState, RiskError> {
        let a = self.accounts[i];
        let basis = a.position_basis_q as int;
        if basis == 0 {
            Ok(self)
        } else {
            let side = side_of(basis)->0;
            if a.adl_a_basis == 0 {
                Err(RiskError::CorruptState)
            } else {
                match u128_or(a.adl_a_basis * POS_SCALE, RiskError::Overflow) {
                    Err(e) => Err(e),
                    Ok(den) => {
                        if a.adl_epoch_snap + 1 != self.epoch_side(side) {
                            Err(RiskError::CorruptState)
                        } else if self.stale_count(side) <= 0 {
                            Err(RiskError::CorruptState)
                        } else {
                            match index_pnl_or_overflow(
                                abs_of(basis),
                                self.k_epoch_start(side) + self.terminal_shift(side) - a.adl_k_snap,
                                self.f_epoch_start(side) - a.f_snap,
                                den as int,
                            ) {
                                Err(e) => Err(e),
                                Ok(delta) => match i128_or(a.pnl + delta, RiskError::Overflow) {
                                    Err(e) => Err(e),
                                    Ok(pnl) => {
                                        if pnl == i128::MIN {
                                            Err(RiskError::Overflow)
                                        } else {
                                            match if delta != 0 {
                                                match self.set_pnl_plain(i, pnl, ReserveMode::ImmediateReleaseResolvedOnly) {
                                                    Err(e) => Err(e),
                                                    Ok(t) => Ok(EngineState {
                                                        pnl_matured_pos_tot: t.pnl_pos_tot,
                                                        ..t
                                                    }),
                                                }
                                            } else {
                                                Ok(self)
                                            } {
                                                Err(e) => Err(e),
                                                Ok(s1) => {
                                                    s1.with_stale_count(side, (s1.stale_count(side) - 1) as u64).clear_position(i)
                                                },
                                            }
                                        }
                                    },
                                },
                            }
                        }
                    },
                }
            }
        }
    }

    /// A resolution is refused before anything changes.
    pub open spec fn resolve_refused(self, mode: ResolveMode, resolved: u64, live: u64, now: u64, rate: i128) -> bool {
        ||| !self.is_live()
        ||| self.current_slot > now
        ||| self.last_market_slot > now
        ||| !price_ok(resolved)
        ||| !price_ok(live)
        ||| self.before_resolution(mode, live, now, rate) is Err
    }

    /// Reconcile account `idx` of a resolved market: its reserve is released, its
    /// position ends, its losses are paid or forgiven.
    #[verifier::opaque]
    pub open spec fn reconcile(self, idx: u16) -> Result<EngineState, RiskError> {
        let i = idx as int;
        if self.is_live() {
            Err(RiskError::Unauthorized)
        } else if !self.in_use(i) {
            Err(RiskError::AccountNotFound)
        } else {
            let s1 = self.at_slot(self.resolved_slot).with_account(i, self.accounts[i].without_reserve());
            match s1.settle_terminal(i) {
                Err(e) => Err(e),
                Ok(s2) => match s2.settle_losses(i) {
                    Err(e) => Err(e),
                    Ok(s3) => match s3.resolve_flat_negative(i) {
                        Err(e) => Err(e),
                        Ok(s4) => s4.postconditions(),
                    },
                },
            }
        }
    }

    /// Payouts can begin: frozen already, or no position, no stale account and no
    /// negative PnL is left.
    pub open spec fn terminal_ready(self) -> bool {
        ||| self.resolved_payout_ready != 0
        ||| {
            &&& self.stored_pos_count_long == 0
            &&& self.stored_pos_count_short == 0
            &&& self.stale_account_count_long == 0
            &&& self.stale_account_count_short == 0
            &&& self.neg_pnl_account_count == 0
        }
    }

    /// Freeze the payout ratio, once.
    pub open spec fn with_payout_frozen(self) -> EngineState {
        if self.resolved_payout_ready != 0 {
            self
        } else {
            EngineState {
                pnl_matured_pos_tot: self.pnl_pos_tot,
                resolved_payout_h_num: min_of(self.residual(), self.pnl_pos_tot as int) as u128,
                resolved_payout_h_den: self.pnl_pos_tot,
                resolved_payout_ready: 1,
                ..self
            }
        }
    }

    /// Turn the PnL of account `i` into capital at the frozen ratio.
    pub open spec fn pay_profit(self, i: int) -> Result<EngineState, RiskError> {
        let pnl = self.accounts[i].pnl;
        if pnl <= 0 {
            Ok(self)
        } else {
            if !self.terminal_ready() {
                Err(RiskError::Unauthorized)
            } else {
                let s1 = self.with_payout_frozen();
                if s1.resolved_payout_h_den == 0 {
                    Err(RiskError::CorruptState)
                } else {
                    let y = muldiv(pnl as int, s1.resolved_payout_h_num as int, s1.resolved_payout_h_den as int);
                    match s1.set_pnl_plain(i, 0, ReserveMode::NoPositiveIncreaseAllowed) {
                        Err(e) => Err(e),
                        Ok(s2) => match u128_or(s2.accounts[i].capital.v + y, RiskError::Overflow) {
                            Err(e) => Err(e),
                            Ok(cap) => s2.set_capital(i, cap),
                        },
                    }
                }
            }
        }
    }

    /// Forgive the fee debt of account `i`.
    pub open spec fn forgive_fee_debt(self, i: int) -> EngineState {
        let a = self.accounts[i];
        if a.fee_credits.v < 0 {
            self.with_account(i, Account { fee_credits: I128 { v: 0 }, ..a })
        } else {
            self
        }
    }

    /// Close the reconciled account `idx` and pay it out.
    #[verifier::opaque]
    pub open spec fn close_terminal(self, idx: u16) -> Result<(EngineState, u128), RiskError> {
        let i = idx as int;
        if self.is_live() {
            Err(RiskError::Unauthorized)
        } else if !self.in_use(i) {
            Err(RiskError::AccountNotFound)
        } else if self.accounts[i].position_basis_q != 0 || self.accounts[i].pnl < 0 {
            Err(RiskError::Undercollateralized)
        } else {
            let s1 = self.with_account(i, self.accounts[i].without_reserve());
            match s1.pay_profit(i) {
                Err(e) => Err(e),
                Ok(s2) => match s2.sweep_fee_debt(i) {
                    Err(e) => Err(e),
                    Ok(s3) => match s3.forgive_fee_debt(i).pay_out(i) {
                        Err(e) => Err(e),
                        Ok(p) => match p.0.free_and_check(idx) {
                            Err(e) => Err(e),
                            Ok(s5) => Ok((s5, p.1)),
                        },
                    },
                },
            }
        }
    }

    /// Reconcile account `idx`, and close it unless it waits for its payout.
    pub open spec fn force_close(self, idx: u16) -> Result<(EngineState, ResolvedCloseResult), RiskError> {
        match self.reconcile(idx) {
            Err(e) => Err(e),
            Ok(s1) => {
                let s2 = s1.reopen_ready();
                if s2.accounts[idx as int].pnl > 0 && !s2.terminal_ready() {
                    Ok((s2, ResolvedCloseResult::ProgressOnly))
                } else {
                    match s2.close_terminal(idx) {
                        Err(e) => Err(e),
                        Ok(r) => Ok((r.0, ResolvedCloseResult::Closed(r.1))),
                    }
                }
            },
        }
    }
}

impl RiskEngine {
    fn before_resolution(
        &mut self,
        mode: ResolveMode,
        live_oracle_price: u64,
        now_slot: u64,
        funding_rate_e9: i128,
    ) -> (r: Result<(), RiskError>)
        requires
            old(self).wf(),
        ensures
            final(self).wf(),
            agrees_unit(
                old(self)@.before_resolution(mode, live_oracle_price, now_slot, funding_rate_e9),
                r,
                final(self)@,
            ),
            r is Err ==> final(self)@ == old(self)@,
    {
        match mode {
            ResolveMode::Degenerate => {
                if live_oracle_price != self.last_oracle_price {
                    return Err(RiskError::Overflow);
                }
                if funding_rate_e9 != 0 {
                    return Err(RiskError::Overflow);
                }
                self.current_slot = now_slot;
                self.last_market_slot = now_slot;
                Ok(())
            },
            ResolveMode::Ordinary => self.accrue_market_to(now_slot, live_oracle_price, funding_rate_e9),
        }
    }

    fn terminal_delta(&self, side: Side, price_diff: i128) -> (r: Result<i128, RiskError>)
        requires
            price_diff != i128::MIN,
        ensures
            r == self@.terminal_delta(side, price_diff as int),
    {
        if self.get_side_mode(side) == SideMode::ResetPending {
            Ok(0)
        } else {
            checked_u128_mul_i128(self.get_a_side(side), price_diff)
        }
    }

    fn drain_side(&mut self, side: Side) -> (r: Result<(), RiskError>)
        requires
            old(self).wf(),
        ensures
            final(self).wf(),
            agrees_unit(old(self)@.drain_side(side), r, final(self)@),
    {
        if self.get_side_mode(side) != SideMode::ResetPending {
            self.begin_full_drain_reset(side)
        } else {
            Ok(())
        }
    }

    fn within_band(resolved: u64, last: u64, bps: u64) -> (r: bool)
        ensures
            r == within_band(resolved, last, bps),
    {
        let diff: u64 = if resolved >= last {
            resolved - last
        } else {
            last - resolved
        };
        assert(bps * last <= 0xffff_ffff_ffff_ffff * 0xffff_ffff_ffff_ffff) by (nonlinear_arith)
            requires
                0 <= bps <= 0xffff_ffff_ffff_ffff,
                0 <= last <= 0xffff_ffff_ffff_ffff,
            ;
        (diff as u128) * 10_000 <= (bps as u128) * (last as u128)
    }

    /// Resolve the market at a settlement price.
    pub fn resolve_market_not_atomic(
        &mut self,
        resolve_mode: ResolveMode,
        resolved_price: u64,
        live_oracle_price: u64,
        now_slot: u64,
        funding_rate_e9: i128,
    ) -> (r: Result<(), RiskError>)
        requires
            old(self).wf(),
        ensures
            final(self).wf(),
            agrees_unit(
                old(self)@.resolve_market(
                    resolve_mode,
                    resolved_price,
                    live_oracle_price,
                    now_slot,
                    funding_rate_e9,
                ),
                r,
                final(self)@,
            ),
            r is Ok ==> final(self)@.conserved() && final(self)@.oi_balanced(),
            old(self)@.resolve_refused(resolve_mode, resolved_price, live_oracle_price, now_slot, funding_rate_e9)
                ==> r is Err && final(self)@ == old(self)@,
    {
        proof {
            reveal(EngineState::resolve_market);
        }
        if self.market_mode != MarketMode::Live {
            return Err(RiskError::Unauthorized);
        }
        if now_slot < self.current_slot {
            return Err(RiskError::Overflow);
        }
        if now_slot < self.last_market_slot {
            return Err(RiskError::Overflow);
        }
        if resolved_price == 0 || resolved_price > MAX_ORACLE_PRICE {
            return Err(RiskError::Overflow);
        }
        if live_oracle_price == 0 || live_oracle_price > MAX_ORACLE_PRICE {
            return Err(RiskError::Overflow);
        }
        self.before_resolution(resolve_mode, live_oracle_price, now_slot, funding_rate_e9)?;
        if resolve_mode == ResolveMode::Ordinary {
            if !RiskEngine::within_band(
                resolved_price,
                self.last_oracle_price,
                self.params.resolve_price_deviation_bps
            ) {
                return Err(RiskError::Overflow);
            }
        }
        let price_diff: i128 = resolved_price as i128 - live_oracle_price as i128;
        let k_long: i128 = self.terminal_delta(Side::Long, price_diff)?;
        let k_short: i128 = self.terminal_delta(Side::Short, -price_diff)?;
        self.current_slot = now_slot;
        self.market_mode = MarketMode::Resolved;
        self.resolved_price = resolved_price;
        self.resolved_live_price = live_oracle_price;
        self.resolved_slot = now_slot;
        self.resolved_k_long_terminal_delta = k_long;
        self.resolved_k_short_terminal_delta = k_short;
        self.resolved_payout_h_num = 0;
        self.resolved_payout_h_den = 0;
        self.resolved_payout_ready = 0;
        self.pnl_matured_pos_tot = self.pnl_pos_tot;
        self.oi_eff_long_q = 0;
        self.oi_eff_short_q = 0;
        self.drain_side(Side::Long)?;
        self.drain_side(Side::Short)?;
        self.maybe_finalize_ready_reset_sides();
        self.assert_public_postconditions()
    }

    fn settle_terminal(&mut self, idx: usize) -> (r: Result<(), RiskError>)
        requires
            old(self).wf(),
            idx < MAX_ACCOUNTS,
        ensures
            final(self).wf(),
            agrees_unit(old(self)@.settle_terminal(idx as int), r, final(self)@),
    {
        proof {
            reveal(EngineState::settle_terminal);
            assert(basis_ok(self@.accounts[idx as int]));
        }
        let a: Account = self.accounts[idx];
        let basis: i128 = a.position_basis_q;
        if basis == 0 {
            return Ok(());
        }
        let side: Side = if basis > 0 {
            Side::Long
        } else {
            Side::Short
        };
        if a.adl_a_basis == 0 {
            return Err(RiskError::CorruptState);
        }
        let den: u128 = a.adl_a_basis.checked_mul(POS_SCALE).ok_or(RiskError::Overflow)?;
        let epoch_side: u64 = self.get_epoch_side(side);
        if a.adl_epoch_snap == u64::MAX || a.adl_epoch_snap + 1 != epoch_side {
            return Err(RiskError::CorruptState);
        }
        if self.get_stale_count(side) == 0 {
            return Err(RiskError::CorruptState);
        }
        let shift: i128 = match side {
            Side::Long => self.resolved_k_long_terminal_delta,
            Side::Short => self.resolved_k_short_terminal_delta,
        };
        let k_end: I256 = I256::from_i128(self.get_k_epoch_start(side)).checked_add(&I256::from_i128(shift)).ok_or(RiskError::Overflow)?;
        let f_end: I256 = I256::from_i128(self.get_f_epoch_start(side));
        let delta: i128 = RiskEngine::compute_kf_pnl_delta_wide(abs_i128(basis), a.adl_k_snap, k_end, a.f_snap, f_end, den)?;
        let new_pnl: i128 = a.pnl.checked_add(delta).ok_or(RiskError::Overflow)?;
        if new_pnl == i128::MIN {
            return Err(RiskError::Overflow);
        }
        if delta != 0 {
            self.set_pnl(idx, new_pnl)?;
            self.pnl_matured_pos_tot = self.pnl_pos_tot;
        }
        proof {
            lemma_set_pnl_keeps_sides(old(self)@, idx as int, new_pnl);
        }
        let stale: u64 = self.get_stale_count(side);
        self.set_stale_count(side, stale - 1);
        self.clear_position(idx)
    }

    /// Reconcile an account of a resolved market.
    pub fn reconcile_resolved_not_atomic(&mut self, idx: u16) -> (r: Result<(), RiskError>)
        requires
            old(self).wf(),
        ensures
            final(self).wf(),
            agrees_unit(old(self)@.reconcile(idx), r, final(self)@),
            r is Ok ==> final(self)@.conserved() && final(self)@.oi_balanced(),
            old(self)@.is_live() || !old(self)@.in_use(idx as int) ==> r is Err && final(self)@ == old(self)@,
    {
        proof {
            reveal(EngineState::reconcile);
        }
        if self.market_mode != MarketMode::Resolved {
            return Err(RiskError::Unauthorized);
        }
        if !self.is_used(idx as usize) {
            return Err(RiskError::AccountNotFound);
        }
        let i: usize = idx as usize;
        self.current_slot = self.resolved_slot;
        self.prepare_account_for_resolved_touch(i);
        self.settle_terminal(i)?;
        self.settle_losses(i)?;
        self.resolve_flat_negative(i)?;
        self.assert_public_postconditions()
    }

    /// Whether payouts can begin.
    pub fn is_terminal_ready(&self) -> (r: bool)
        ensures
            r == self@.terminal_ready(),
    {
        if self.resolved_payout_ready != 0 {
            return true;
        }
        self.stored_pos_count_long == 0 && self.stored_pos_count_short == 0 && self.stale_account_count_long == 0
            && self.stale_account_count_short == 0 && self.neg_pnl_account_count == 0
    }

    fn pay_profit(&mut self, idx: usize) -> (r: Result<(), RiskError>)
        requires
            old(self).wf(),
            idx < MAX_ACCOUNTS,
        ensures
            final(self).wf(),
            agrees_unit(old(self)@.pay_profit(idx as int), r, final(self)@),
    {
        let pnl: i128 = self.accounts[idx].pnl;
        if pnl <= 0 {
            return Ok(());
        }
        if !self.is_terminal_ready() {
            return Err(RiskError::Unauthorized);
        }
        if self.resolved_payout_ready == 0 {
            let residual: u128 = self.residual();
            self.pnl_matured_pos_tot = self.pnl_pos_tot;
            self.resolved_payout_h_num = min_u128(residual, self.pnl_pos_tot);
            self.resolved_payout_h_den = self.pnl_pos_tot;
            self.resolved_payout_ready = 1;
        }
        if self.resolved_payout_h_den == 0 {
            return Err(RiskError::CorruptState);
        }
        proof {
            lemma_haircut_shrinks(
                pnl as int,
                self.resolved_payout_h_num as int,
                self.resolved_payout_h_den as int,
            );
        }
        let y: u128 = mul_div_floor_u128(
            pnl as u128,
            self.resolved_payout_h_num,
            self.resolved_payout_h_den,
        );
        self.set_pnl_without_reserve(idx, 0, ReserveMode::NoPositiveIncreaseAllowed)?;
        let cap: u128 = self.accounts[idx].capital.v.checked_add(y).ok_or(RiskError::Overflow)?;
        self.set_capital(idx, cap)
    }

    /// Close a reconciled account and pay it out.
    pub fn close_resolved_terminal_not_atomic(&mut self, idx: u16) -> (r: Result<u128, RiskError>)
        requires
            old(self).wf(),
        ensures
            final(self).wf(),
            agrees(old(self)@.close_terminal(idx), r, final(self)@),
            r is Ok ==> final(self)@.conserved() && final(self)@.oi_balanced(),
            old(self)@.is_live() || !old(self)@.in_use(idx as int) || old(self)@.accounts[idx as int].position_basis_q != 0
                || old(self)@.accounts[idx as int].pnl < 0 ==> r is Err && final(self)@ == old(self)@,
    {
        proof {
            reveal(EngineState::close_terminal);
        }
        if self.market_mode != MarketMode::Resolved {
            return Err(RiskError::Unauthorized);
        }
        if !self.is_used(idx as usize) {
            return Err(RiskError::AccountNotFound);
        }
        let i: usize = idx as usize;
        if self.accounts[i].position_basis_q != 0 {
            return Err(RiskError::Undercollateralized);
        }
        if self.accounts[i].pnl < 0 {
            return Err(RiskError::Undercollateralized);
        }
        self.prepare_account_for_resolved_touch(i);
        self.pay_profit(i)?;
        self.fee_debt_sweep(i)?;
        let mut a: Account = self.accounts[i];
        if a.fee_credits.v < 0 {
            a.fee_credits = I128 { v: 0 };
            self.accounts.set(i, a);
        }
        let capital: u128 = self.pay_out(i)?;
        self.free_and_check(idx)?;
        Ok(capital)
    }

    /// Reconcile an account of a resolved market, and close it unless it waits for
    /// its payout.
    pub fn force_close_resolved_not_atomic(&mut self, idx: u16) -> (r: Result<ResolvedCloseResult, RiskError>)
        requires
            old(self).wf(),
        ensures
            final(self).wf(),
            agrees(old(self)@.force_close(idx), r, final(self)@),
            r is Ok ==> final(self)@.conserved() && final(self)@.oi_balanced(),
            old(self)@.is_live() || !old(self)@.in_use(idx as int) ==> r is Err && final(self)@ == old(self)@,
    {
        proof {
            reveal(EngineState::reconcile);
        }
        self.reconcile_resolved_not_atomic(idx)?;
        self.maybe_finalize_ready_reset_sides();
        if self.accounts[idx as usize].pnl > 0 && !self.is_terminal_ready() {
            return Ok(ResolvedCloseResult::ProgressOnly);
        }
        let capital: u128 = self.close_resolved_terminal_not_atomic(idx)?;
        Ok(ResolvedCloseResult::Closed(capital))
    }
}

/// Setting a PnL leaves the sides as they are.
proof fn lemma_set_pnl_keeps_sides(s: EngineState, i: int, pnl: i128)
    ensures
        match s.set_pnl_plain(i, pnl, ReserveMode::ImmediateReleaseResolvedOnly) {
            Ok(t) => t.stale_account_count_long == s.stale_account_count_long && t.stale_account_count_short
                == s.stale_account_count_short,
            Err(_) => true,
        },
{
    reveal(EngineState::set_pnl);
    reveal(EngineState::raise_pnl);
    reveal(EngineState::lower_pnl);
}

} // verus!
