//! Settling one account: losses from capital, fee debt, recurring fees, the live
//! touch, and what happens to every touched account at the end.

use vstd::prelude::*;
use crate::constants::{MAX_ACCOUNTS, MAX_PROTOCOL_FEE_ABS};
use crate::context::{touch_keeps_slots_ok, CtxState};
use crate::int128::{I128, U128};
use crate::model::{agrees, agrees_unit, u128_or, EngineState};
use crate::types::{
    Account, InstructionContext, InsuranceFund, MarketMode, ReserveMode, RiskEngine, RiskError,
};
use crate::wide_math::{
    abs_i128, fee_debt_u128_checked, min_of, min_u128, pos_of, widening_mul, U256,
};

verus! {

/// How an amount charged was met: paid from capital, taken in all from the
/// account's equity, and dropped.
pub struct FeeSplit {
    pub paid: u128,
    pub impact: u128,
    pub dropped: u128,
}

/// How far the fee credits `fc` can still go down.
pub open spec fn fee_headroom(fc: int) -> int {
    if fc > 0 {
        0
    } else {
        pos_of(fc + i128::MAX)
    }
}

impl EngineState {
    /// Pay negative PnL of account `i` from its capital, as far as that goes.
    #[verifier::opaque]
    pub open spec fn settle_losses(self, i: int) -> Result<EngineState, RiskError> {
        let a = self.accounts[i];
        if a.pnl >= 0 {
            Ok(self)
        } else {
            if a.pnl == i128::MIN {
                Err(RiskError::CorruptState)
            } else {
                let pay = min_of(-(a.pnl as int), a.capital.v as int);
                if pay > 0 {
                    match self.set_capital(i, (a.capital.v - pay) as u128) {
                        Err(e) => Err(e),
                        Ok(s) => {
                            s.set_pnl_plain(i, (a.pnl + pay) as i128, ReserveMode::ImmediateReleaseResolvedOnly)
                        },
                    }
                } else {
                    Ok(self)
                }
            }
        }
    }

    /// Forgive the negative PnL of a flat account `i`; the insurance fund pays what
    /// it can.
    #[verifier::opaque]
    pub open spec fn resolve_flat_negative(self, i: int) -> Result<EngineState, RiskError> {
        let pnl = self.accounts[i].pnl;
        if self.effective_pos(i) != 0 || pnl >= 0 {
            Ok(self)
        } else {
            if pnl == i128::MIN {
                Err(RiskError::CorruptState)
            } else {
                self.absorb_loss(-(pnl as int)).set_pnl_plain(i, 0, ReserveMode::ImmediateReleaseResolvedOnly)
            }
        }
    }

    /// Pay fee debt of account `i` from its capital into the insurance fund, as far
    /// as that goes.
    #[verifier::opaque]
    pub open spec fn sweep_fee_debt(self, i: int) -> Result<EngineState, RiskError> {
        let a = self.accounts[i];
        let pay = min_of(a.fee_debt(), a.capital.v as int);
        if pay == 0 {
            Ok(self)
        } else {
            match self.set_capital(i, (a.capital.v - pay) as u128) {
                Err(e) => Err(e),
                Ok(s) => match u128_or(s.insurance_fund.balance.v + pay, RiskError::Overflow) {
                    Err(e) => Err(e),
                    Ok(insurance) => {
                        let credits = a.fee_credits.v + min_of(pay, i128::MAX as int);
                        Ok(
                            s.with_account(i, Account {
                                fee_credits: I128 { v: credits as i128 },
                                ..s.accounts[i]
                            }).with_insurance(
                                insurance,
                            ),
                        )
                    },
                },
            }
        }
    }

    /// Charge a fee to account `i` for the insurance fund: from its capital first,
    /// then as fee debt up to the limit; the rest is dropped.
    #[verifier::opaque]
    pub open spec fn charge_fee(self, i: int, fee: u128) -> Result<(EngineState, FeeSplit), RiskError> {
        if fee > MAX_PROTOCOL_FEE_ABS {
            Err(RiskError::Overflow)
        } else {
            let a = self.accounts[i];
            let paid = min_of(fee as int, a.capital.v as int);
            match if paid > 0 {
                match self.set_capital(i, (a.capital.v - paid) as u128) {
                    Err(e) => Err(e),
                    Ok(t) => match u128_or(t.insurance_fund.balance.v + paid, RiskError::Overflow) {
                        Err(e) => Err(e),
                        Ok(insurance) => Ok(t.with_insurance(insurance)),
                    },
                }
            } else {
                Ok(self)
            } {
                Err(e) => Err(e),
                Ok(s1) => {
                    let debt = min_of(fee - paid, fee_headroom(a.fee_credits.v as int));
                    let s2 = s1.with_account(
                        i,
                        Account { fee_credits: I128 { v: (a.fee_credits.v - debt) as i128 }, ..s1.accounts[i] },
                    );
                    Ok(
                        (
                            s2,
                            FeeSplit {
                                paid: paid as u128,
                                impact: (paid + debt) as u128,
                                dropped: (fee - paid - debt) as u128,
                            },
                        ),
                    )
                },
            }
        }
    }

    /// Charge the recurring fee of account `i` from where it was last charged up to
    /// slot `anchor`, capped for one charge.
    #[verifier::opaque]
    pub open spec fn sync_fee(self, i: int, anchor: u64, rate: u128) -> Result<EngineState, RiskError> {
        if !self.in_use(i) {
            Err(RiskError::AccountNotFound)
        } else {
            let last = self.accounts[i].last_fee_slot;
            if last > anchor {
                Err(RiskError::Overflow)
            } else if anchor > (if self.is_live() {
                    self.current_slot
                } else {
                    self.resolved_slot
            }) {
                Err(RiskError::Overflow)
            } else if last == anchor {
                Ok(self)
            } else {
                let fee = min_of(rate * (anchor - last), MAX_PROTOCOL_FEE_ABS as int);
                match if fee > 0 {
                    match self.charge_fee(i, fee as u128) {
                        Err(e) => Err(e),
                        Ok(r) => Ok(r.0),
                    }
                } else {
                    Ok(self)
                } {
                    Err(e) => Err(e),
                    Ok(s) => {
                        Ok(s.with_account(i, Account { last_fee_slot: anchor, ..s.accounts[i] }))
                    },
                }
            }
        }
    }

    /// Touch account `i` in a live market: record it, mature its reserve, settle it
    /// against its side, pay its losses, and forgive what a flat account cannot
    /// pay.
    #[verifier::opaque]
    pub open spec fn touch(self, i: int, c: CtxState) -> Result<(EngineState, CtxState), RiskError> {
        if !self.is_live() {
            Err(RiskError::Unauthorized)
        } else if !self.in_use(i) {
            Err(RiskError::AccountNotFound)
        } else if c.touch(i as u16) is None {
            Err(RiskError::Overflow)
        } else if !(self.accounts[i].reserve_shape_ok(self.params)) {
            Err(RiskError::CorruptState)
        } else {
            match self.admit_outstanding(i) {
                Err(e) => Err(e),
                Ok(s1) => match s1.advance_warmup(i) {
                    Err(e) => Err(e),
                    Ok(s2) => match s2.settle_side_effects(i, c.touch(i as u16)->0) {
                        Err(e) => Err(e),
                        Ok(r) => match r.0.settle_losses(i) {
                            Err(e) => Err(e),
                            Ok(s4) => match s4.resolve_flat_negative(i) {
                                Err(e) => Err(e),
                                Ok(s5) => Ok((s5, r.1)),
                            },
                        },
                    },
                },
            }
        }
    }

    /// Whether the residual covers all matured PnL, and there is some.
    pub open spec fn is_whole(self) -> bool {
        self.pnl_matured_pos_tot > 0 && self.residual() >= self.pnl_matured_pos_tot
    }

    /// The end of an instruction for account `i`: where all matured PnL is covered,
    /// a flat account's matured PnL becomes capital; then its fee debt is paid.
    #[verifier::opaque]
    pub open spec fn finish_account(self, i: int, whole: bool) -> Result<EngineState, RiskError> {
        let a = self.accounts[i];
        let released = self.released(i);
        match if whole && a.position_basis_q == 0 && a.pnl > 0 && released > 0 {
            match self.consume_released(i, released as u128) {
                Err(e) => Err(e),
                Ok(t) => match u128_or(t.accounts[i].capital.v + released, RiskError::Overflow) {
                    Err(e) => Err(e),
                    Ok(cap) => t.set_capital(i, cap),
                },
            }
        } else {
            Ok(self)
        } {
            Err(e) => Err(e),
            Ok(s) => s.sweep_fee_debt(i),
        }
    }

    /// [`finish_account`](Self::finish_account) for the first `n` accounts of a list.
    pub open spec fn finish_accounts(self, order: Seq<u16>, whole: bool, n: nat) -> Result<EngineState, RiskError>
        decreases n,
    {
        if n == 0 {
            Ok(self)
        } else {
            match self.finish_accounts(order, whole, (n - 1) as nat) {
                Err(e) => Err(e),
                Ok(s) => s.finish_account(order[n - 1] as int, whole),
            }
        }
    }

    /// [`finish_account`](Self::finish_account) for every touched account in
    /// ascending order, by one shared look at the residual.
    #[verifier::opaque]
    pub open spec fn finish_touched(self, c: CtxState) -> Result<EngineState, RiskError> {
        self.finish_accounts(c.touched, self.is_whole(), c.touched.len())
    }
}

impl RiskEngine {
    /// Pay negative PnL of an account from its capital.
    pub(crate) fn settle_losses(&mut self, idx: usize) -> (r: Result<(), RiskError>)
        requires
            old(self).wf(),
            idx < MAX_ACCOUNTS,
        ensures
            final(self).wf(),
            agrees_unit(old(self)@.settle_losses(idx as int), r, final(self)@),
    {
        proof {
            reveal(EngineState::settle_losses);
        }
        let a: Account = self.accounts[idx];
        if a.pnl >= 0 {
            return Ok(());
        }
        if a.pnl == i128::MIN {
            return Err(RiskError::CorruptState);
        }
        let need: u128 = abs_i128(a.pnl);
        let cap: u128 = a.capital.v;
        let pay: u128 = min_u128(need, cap);
        if pay > 0 {
            self.set_capital(idx, cap - pay)?;
            self.set_pnl(idx, a.pnl + (pay as i128))?;
        }
        Ok(())
    }

    /// Forgive the negative PnL of a flat account.
    pub(crate) fn resolve_flat_negative(&mut self, idx: usize) -> (r: Result<(), RiskError>)
        requires
            old(self).wf(),
            idx < MAX_ACCOUNTS,
        ensures
            final(self).wf(),
            agrees_unit(old(self)@.resolve_flat_negative(idx as int), r, final(self)@),
    {
        proof {
            reveal(EngineState::resolve_flat_negative);
        }
        if self.effective_pos_q(idx) != 0 {
            return Ok(());
        }
        let pnl: i128 = self.accounts[idx].pnl;
        if pnl < 0 {
            if pnl == i128::MIN {
                return Err(RiskError::CorruptState);
            }
            self.absorb_protocol_loss(abs_i128(pnl));
            self.set_pnl(idx, 0)?;
        }
        Ok(())
    }

    /// Pay fee debt of an account from its capital.
    pub(crate) fn fee_debt_sweep(&mut self, idx: usize) -> (r: Result<(), RiskError>)
        requires
            old(self).wf(),
            idx < MAX_ACCOUNTS,
        ensures
            final(self).wf(),
            agrees_unit(old(self)@.sweep_fee_debt(idx as int), r, final(self)@),
    {
        proof {
            reveal(EngineState::sweep_fee_debt);
        }
        let fc: i128 = self.accounts[idx].fee_credits.v;
        let debt: u128 = fee_debt_u128_checked(fc);
        let cap: u128 = self.accounts[idx].capital.v;
        let pay: u128 = min_u128(debt, cap);
        if pay > 0 {
            self.set_capital(idx, cap - pay)?;
            let insurance: u128 = self.insurance_fund.balance.v.checked_add(pay).ok_or(RiskError::Overflow)?;
            let paid: i128 = if pay > 0x7fff_ffff_ffff_ffff_ffff_ffff_ffff_ffff {
                i128::MAX
            } else {
                pay as i128
            };
            let mut a: Account = self.accounts[idx];
            a.fee_credits = I128 { v: fc + paid };
            self.accounts.set(idx, a);
            self.insurance_fund = InsuranceFund { balance: U128 { v: insurance } };
        }
        Ok(())
    }

    /// How far fee credits can still go down.
    pub(crate) fn fee_headroom(fc: i128) -> (r: u128)
        ensures
            r == fee_headroom(fc as int),
    {
        match fc.checked_add(i128::MAX) {
            Some(h) => {
                if h > 0 {
                    h as u128
                } else {
                    0
                }
            },
            None => 0,
        }
    }

    /// Charge a fee to an account for the insurance fund.
    pub(crate) fn charge_fee_to_insurance(&mut self, idx: usize, fee: u128) -> (r: Result<FeeSplit, RiskError>)
        requires
            old(self).wf(),
            idx < MAX_ACCOUNTS,
        ensures
            final(self).wf(),
            agrees(old(self)@.charge_fee(idx as int, fee), r, final(self)@),
    {
        proof {
            reveal(EngineState::charge_fee);
        }
        if fee > MAX_PROTOCOL_FEE_ABS {
            return Err(RiskError::Overflow);
        }
        let fc: i128 = self.accounts[idx].fee_credits.v;
        let cap: u128 = self.accounts[idx].capital.v;
        let paid: u128 = min_u128(fee, cap);
        if paid > 0 {
            self.set_capital(idx, cap - paid)?;
            let insurance: u128 = self.insurance_fund.balance.v.checked_add(paid).ok_or(RiskError::Overflow)?;
            self.insurance_fund = InsuranceFund { balance: U128 { v: insurance } };
        }
        let shortfall: u128 = fee - paid;
        let debt: u128 = min_u128(shortfall, RiskEngine::fee_headroom(fc));
        let mut a: Account = self.accounts[idx];
        a.fee_credits = I128 { v: fc - (debt as i128) };
        self.accounts.set(idx, a);
        Ok(FeeSplit { paid, impact: paid + debt, dropped: fee - paid - debt })
    }

    /// Charge the recurring fee of an account up to a slot.
    pub(crate) fn sync_account_fee_to_slot(
        &mut self,
        idx: usize,
        fee_slot_anchor: u64,
        fee_rate_per_slot: u128,
    ) -> (r: Result<(), RiskError>)
        requires
            old(self).wf(),
        ensures
            final(self).wf(),
            agrees_unit(
                old(self)@.sync_fee(idx as int, fee_slot_anchor, fee_rate_per_slot),
                r,
                final(self)@,
            ),
    {
        proof {
            reveal(EngineState::sync_fee);
        }
        if !self.is_used(idx) {
            return Err(RiskError::AccountNotFound);
        }
        let last: u64 = self.accounts[idx].last_fee_slot;
        if fee_slot_anchor < last {
            return Err(RiskError::Overflow);
        }
        let latest: u64 = match self.market_mode {
            MarketMode::Live => self.current_slot,
            MarketMode::Resolved => self.resolved_slot,
        };
        if fee_slot_anchor > latest {
            return Err(RiskError::Overflow);
        }
        let dt: u64 = fee_slot_anchor - last;
        if dt == 0 {
            return Ok(());
        }
        let raw: U256 = widening_mul(fee_rate_per_slot, dt as u128);
        let fee: u128 = if raw.hi != 0 || raw.lo > MAX_PROTOCOL_FEE_ABS {
            MAX_PROTOCOL_FEE_ABS
        } else {
            raw.lo
        };
        if fee > 0 {
            let _split: FeeSplit = self.charge_fee_to_insurance(idx, fee)?;
        }
        let mut a: Account = self.accounts[idx];
        a.last_fee_slot = fee_slot_anchor;
        self.accounts.set(idx, a);
        Ok(())
    }

    /// Touch an account in a live market.
    pub(crate) fn touch_account_live_local(
        &mut self,
        idx: usize,
        ctx: &mut InstructionContext,
    ) -> (r: Result<(), RiskError>)
        requires
            old(self).wf(),
            old(ctx).wf(),
            old(ctx)@.slots_ok(),
        ensures
            final(self).wf(),
            final(ctx).wf(),
            final(ctx)@.slots_ok(),
            match r {
                Ok(_) => old(self)@.touch(idx as int, old(ctx)@) == Ok::<(EngineState, CtxState), RiskError>(
                    (final(self)@, final(ctx)@),
                ),
                Err(e) => old(self)@.touch(idx as int, old(ctx)@) == Err::<(EngineState, CtxState), RiskError>(e),
            },
    {
        proof {
            reveal(EngineState::touch);
        }
        if self.market_mode != MarketMode::Live {
            return Err(RiskError::Unauthorized);
        }
        if !self.is_used(idx) {
            return Err(RiskError::AccountNotFound);
        }
        proof {
            touch_keeps_slots_ok(ctx@, idx as u16);
        }
        if !ctx.add_touched(idx as u16) {
            return Err(RiskError::Overflow);
        }
        self.validate_reserve_shape(idx)?;
        self.admit_outstanding_reserve_on_touch(idx)?;
        self.advance_profit_warmup(idx)?;
        self.settle_side_effects_live(idx, ctx)?;
        self.settle_losses(idx)?;
        self.resolve_flat_negative(idx)
    }

    fn finish_account(&mut self, idx: usize, whole: bool) -> (r: Result<(), RiskError>)
        requires
            old(self).wf(),
            idx < MAX_ACCOUNTS,
        ensures
            final(self).wf(),
            agrees_unit(old(self)@.finish_account(idx as int, whole), r, final(self)@),
    {
        proof {
            reveal(EngineState::finish_account);
        }
        if whole && self.accounts[idx].position_basis_q == 0 && self.accounts[idx].pnl > 0 {
            let released: u128 = self.released_pos(idx);
            if released > 0 {
                self.consume_released_pnl(idx, released)?;
                let cap: u128 = self.accounts[idx].capital.v.checked_add(released).ok_or(RiskError::Overflow)?;
                self.set_capital(idx, cap)?;
            }
        }
        self.fee_debt_sweep(idx)
    }

    /// Finish every touched account, in ascending order.
    pub(crate) fn finalize_touched_accounts_post_live(&mut self, ctx: &InstructionContext) -> (r: Result<(), RiskError>)
        requires
            old(self).wf(),
            ctx.wf(),
            ctx@.slots_ok(),
        ensures
            final(self).wf(),
            agrees_unit(old(self)@.finish_touched(ctx@), r, final(self)@),
    {
        proof {
            reveal(EngineState::finish_touched);
        }
        let whole: bool = self.pnl_matured_pos_tot > 0 && self.residual() >= self.pnl_matured_pos_tot;
        let count: usize = ctx.touched_count as usize;
        let ghost order = ctx@.touched;
        let ghost s0 = self@;
        let mut i: usize = 0;
        while i < count
            invariant
                i <= count,
                s0 == old(self)@,
                count == ctx.touched_count,
                ctx.wf(),
                order == ctx@.touched,
                order.len() == count,
                forall|j: int| 0 <= j < count ==> (#[trigger] order[j]) < MAX_ACCOUNTS,
                self.wf(),
                s0.finish_accounts(order, whole, i as nat) == Ok::<EngineState, RiskError>(self@),
                s0.finish_touched(ctx@) == s0.finish_accounts(order, whole, count as nat),
            decreases count - i,
        {
            let idx: usize = ctx.touched_accounts[i] as usize;
            assert(order[i as int] == idx);
            let ghost s1 = self@;
            match self.finish_account(idx, whole) {
                Ok(_) => {},
                Err(e) => {
                    proof {
                        assert(s0.finish_accounts(order, whole, (i + 1) as nat) == Err::<EngineState, RiskError>(e));
                        lemma_finish_stays_failed(s0, order, whole, (i + 1) as nat, count as nat);
                    }
                    return Err(e);
                },
            }
            i += 1;
        }
        Ok(())
    }
}

/// An error among the first accounts is the error of all.
proof fn lemma_finish_stays_failed(s: EngineState, order: Seq<u16>, whole: bool, m: nat, n: nat)
    requires
        m <= n,
        s.finish_accounts(order, whole, m) is Err,
    ensures
        s.finish_accounts(order, whole, n) == s.finish_accounts(order, whole, m),
    decreases n,
{
    if m < n {
        lemma_finish_stays_failed(s, order, whole, m, (n - 1) as nat);
    }
}

} // verus!
