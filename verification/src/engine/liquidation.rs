//! Liquidations and the keeper crank.

use vstd::prelude::*;
use crate::constants::{MAX_ACCOUNTS, MAX_ORACLE_PRICE, MAX_TOUCHED_PER_INSTRUCTION, POS_SCALE};
use crate::context::CtxState;
use crate::engine::accounts::price_ok;
use crate::engine::equity::{lemma_notional_bound, notional_of};
use crate::engine::market::admission_ok;
use crate::engine::positions::lemma_effective_pos_bound;
use crate::engine::settlement::{fee_headroom, FeeSplit};
use crate::model::{agrees, agrees_unit, EngineState};
use crate::types::{
    side_of, Account, CrankOutcome, InstructionContext, LiquidationPolicy, MarketMode,
    ReserveMode, RiskEngine, RiskError, Side,
};
use crate::wide_math::{
    abs_i128, abs_of, lemma_muldiv_bound, max_of, max_u128, min_of, min_u128, mul_div_ceil_u128,
    mul_div_floor_u128, muldiv_up, I256,
};

verus! {

/// A candidate of a keeper crank: an account, and how to liquidate it.
pub type Candidate = (u16, Option<LiquidationPolicy>);

/// How far a keeper crank has come.
pub struct CrankRun {
    pub s: EngineState,
    pub c: CtxState,
    pub attempts: int,
    pub liquidations: int,
}

impl EngineState {
    /// The fee for liquidating the quantity `q`.
    pub open spec fn liquidation_fee(self, q: int, price: int) -> int {
        min_of(
            max_of(
                muldiv_up(notional_of(q, price), self.params.liquidation_fee_bps as int, 10_000),
                self.params.min_liquidation_abs.v as int,
            ),
            self.params.liquidation_fee_cap.v as int,
        )
    }

    /// The deficit that a closed account `i` leaves.
    pub open spec fn deficit(self, i: int) -> int {
        if self.effective_pos(i) == 0 && self.accounts[i].pnl < 0 {
            -(self.accounts[i].pnl as int)
        } else {
            0
        }
    }

    /// Close `q` of account `i`'s position, so that `left` remains; pay losses and
    /// the liquidation fee.
    pub open spec fn close_quantity(self, i: int, left: i128, q: int, price: u64) -> Result<EngineState, RiskError> {
        match self.attach_position(i, left) {
            Err(e) => Err(e),
            Ok(s1) => match s1.settle_losses(i) {
                Err(e) => Err(e),
                Ok(s2) => match s2.charge_fee(i, s2.liquidation_fee(q, price as int) as u128) {
                    Err(e) => Err(e),
                    Ok(r) => Ok(r.0),
                },
            },
        }
    }

    /// Liquidate the touched account `idx` by `policy` where it is below maintenance
    /// margin. Tells whether it did.
    #[verifier::opaque]
    pub open spec fn liquidate_touched(
        self,
        idx: u16,
        price: u64,
        policy: LiquidationPolicy,
        c: CtxState,
    ) -> Result<(EngineState, CtxState, bool), RiskError> {
        let i = idx as int;
        if !self.in_use(i) {
            Ok((self, c, false))
        } else {
            if !price_ok(price) {
                Err(RiskError::Overflow)
            } else {
                let q0 = self.effective_pos(i);
                if q0 == 0 || self.above_maint(self.accounts[i], i, price as int) {
                    Ok((self, c, false))
                } else {
                    let side = side_of(q0)->0;
                    match policy {
                        LiquidationPolicy::ExactPartial(q) => {
                            if !(0 < q < abs_of(q0)) {
                                Err(RiskError::Overflow)
                            } else {
                                let left = if q0 > 0 {
                                    q0 - q
                                } else {
                                    q0 + q
                                };
                                match self.close_quantity(i, left as i128, q as int, price) {
                                    Err(e) => Err(e),
                                    Ok(s1) => match s1.enqueue_adl(c, side, q, 0) {
                                        Err(e) => Err(e),
                                        Ok(r) => {
                                            if !r.0.above_maint(r.0.accounts[i], i, price as int) {
                                                Err(RiskError::Undercollateralized)
                                            } else {
                                                Ok((r.0, r.1, true))
                                            }
                                        },
                                    },
                                }
                            }
                        },
                        LiquidationPolicy::FullClose => {
                            match self.close_quantity(i, 0, abs_of(q0), price) {
                                Err(e) => Err(e),
                                Ok(s1) => {
                                    let d = s1.deficit(i);
                                    if d > i128::MAX {
                                        Err(RiskError::CorruptState)
                                    } else {
                                        match s1.enqueue_adl(c, side, abs_of(q0) as u128, d as u128) {
                                            Err(e) => Err(e),
                                            Ok(r) => match if d != 0 {
                                                r.0.set_pnl_plain(i, 0, ReserveMode::NoPositiveIncreaseAllowed)
                                            } else {
                                                Ok(r.0)
                                            } {
                                                Err(e) => Err(e),
                                                Ok(s2) => Ok((s2, r.1, true)),
                                            },
                                        }
                                    }
                                },
                            }
                        },
                    }
                }
            }
        }
    }

    /// Liquidate account `idx`.
    #[verifier::opaque]
    pub open spec fn liquidate(
        self,
        idx: u16,
        now: u64,
        price: u64,
        policy: LiquidationPolicy,
        rate: i128,
        h_min: u64,
        h_max: u64,
    ) -> Result<(EngineState, bool), RiskError> {
        let i = idx as int;
        if !admission_ok(h_min, h_max, self.params) {
            Err(RiskError::Overflow)
        } else if !self.in_use(i) {
            Err(RiskError::AccountNotFound)
        } else if !self.is_live() {
            Err(RiskError::Unauthorized)
        } else {
            match self.start_live(i, price, now, rate, h_min, h_max) {
                Err(e) => Err(e),
                Ok(r1) => match r1.0.liquidate_touched(idx, price, policy, r1.1) {
                    Err(e) => Err(e),
                    Ok(r2) => match r2.0.finish_touched(r2.1) {
                        Err(e) => Err(e),
                        Ok(s3) => match s3.end_instruction(r2.1) {
                            Err(e) => Err(e),
                            Ok(s4) => Ok((s4, r2.2)),
                        },
                    },
                },
            }
        }
    }

    /// A keeper crank is refused before anything changes.
    pub open spec fn crank_refused(self, now: u64, price: u64, max: u16, rate: i128, h_min: u64, h_max: u64) -> bool {
        ||| !admission_ok(h_min, h_max, self.params)
        ||| !self.is_live()
        ||| max > MAX_TOUCHED_PER_INSTRUCTION
        ||| self.accrue(now, price, rate) is Err
    }

    /// A partial close of nothing, or of the whole position or more.
    pub open spec fn is_no_partial(policy: LiquidationPolicy, q0: int) -> bool {
        policy matches LiquidationPolicy::ExactPartial(q) && !(0 < q < abs_of(q0))
    }

    /// What a fee takes from account `a`'s equity.
    pub open spec fn fee_impact(a: Account, fee: int) -> int {
        let paid = min_of(fee, a.capital.v as int);
        paid + min_of(fee - paid, fee_headroom(a.fee_credits.v as int))
    }

    /// The policy that a keeper's hint for account `i` with position `q0` comes to:
    /// a partial close only where it would leave the account above maintenance
    /// margin.
    pub open spec fn keeper_policy(
        self,
        i: int,
        q0: int,
        hint: Option<LiquidationPolicy>,
        price: u64,
    ) -> Option<LiquidationPolicy> {
        match hint {
            Some(LiquidationPolicy::ExactPartial(q)) => {
                let a = self.accounts[i];
                let fee = self.liquidation_fee(q as int, price as int);
                if 0 < q < abs_of(q0) && a.equity_maint() - EngineState::fee_impact(a, fee) > self.mm_for(
                    abs_of(q0) - q,
                    price as int,
                ) {
                    hint
                } else {
                    None
                }
            },
            _ => hint,
        }
    }
}

impl CrankRun {
    /// One candidate: touched, and liquidated where it is below maintenance margin
    /// and its hint stands. Nothing more happens once the budget is spent or a side
    /// reset is scheduled, and missing accounts are passed over.
    pub open spec fn step(self, cand: Candidate, max: int, price: u64) -> Result<CrankRun, RiskError> {
        let i = cand.0 as int;
        if self.attempts >= max || self.c.any_reset() || !self.s.in_use(i) {
            Ok(self)
        } else {
            match self.s.touch(i, self.c) {
                Err(e) => Err(e),
                Ok(t) => {
                    let next = CrankRun { s: t.0, c: t.1, attempts: self.attempts + 1, ..self };
                    let q0 = t.0.effective_pos(i);
                    let policy = t.0.keeper_policy(i, q0, cand.1, price);
                    if t.1.any_reset() || q0 == 0 || t.0.above_maint(t.0.accounts[i], i, price as int) || policy is None {
                        Ok(next)
                    } else {
                        match t.0.liquidate_touched(cand.0, price, policy->0, t.1) {
                            Err(e) => Err(e),
                            Ok(l) => {
                                Ok(
                                    CrankRun {
                                        s: l.0,
                                        c: l.1,
                                        liquidations: next.liquidations + if l.2 {
                                            1int
                                        } else {
                                            0int
                                        },
                                        ..next
                                    },
                                )
                            },
                        }
                    }
                },
            }
        }
    }

    /// The first `n` candidates in order.
    pub open spec fn run(self, cands: Seq<Candidate>, n: nat, max: int, price: u64) -> Result<CrankRun, RiskError>
        decreases n,
    {
        if n == 0 {
            Ok(self)
        } else {
            match self.run(cands, (n - 1) as nat, max, price) {
                Err(e) => Err(e),
                Ok(r) => r.step(cands[n - 1], max, price),
            }
        }
    }
}

impl EngineState {
    /// The keeper crank: accrue once, then take the candidates in order.
    #[verifier::opaque]
    pub open spec fn keeper_crank(
        self,
        now: u64,
        price: u64,
        cands: Seq<Candidate>,
        max: u16,
        rate: i128,
        h_min: u64,
        h_max: u64,
    ) -> Result<(EngineState, CrankOutcome), RiskError> {
        if !admission_ok(h_min, h_max, self.params) {
            Err(RiskError::Overflow)
        } else if !price_ok(price) {
            Err(RiskError::Overflow)
        } else if !self.is_live() {
            Err(RiskError::Unauthorized)
        } else if max > MAX_TOUCHED_PER_INSTRUCTION {
            Err(RiskError::Overflow)
        } else {
            match self.accrue(now, price, rate) {
                Err(e) => Err(e),
                Ok(s1) => {
                    let advanced = now > s1.last_crank_slot;
                    let s2 = if advanced {
                        EngineState { last_crank_slot: now, ..s1 }
                    } else {
                        s1
                    };
                    let start = CrankRun { s: s2, c: CtxState::fresh(h_min, h_max), attempts: 0, liquidations: 0 };
                    match start.run(cands, cands.len(), max as int, price) {
                        Err(e) => Err(e),
                        Ok(r) => match r.s.finish_touched(r.c) {
                            Err(e) => Err(e),
                            Ok(s3) => match s3.end_instruction(r.c) {
                                Err(e) => Err(e),
                                Ok(s4) => {
                                    Ok((s4, CrankOutcome {
                                        advanced,
                                        num_liquidations: r.liquidations as u32,
                                        num_gc_closed: 0,
                                    }))
                                },
                            },
                        },
                    }
                },
            }
        }
    }
}

impl RiskEngine {
    fn liquidation_fee(&self, q: u128, oracle_price: u64) -> (r: u128)
        requires
            self.wf(),
            q <= 100_000_000_000_000_000_000_000_000_000,
            price_ok(oracle_price),
        ensures
            r == self@.liquidation_fee(q as int, oracle_price as int),
    {
        proof {
            lemma_notional_bound(q as int, oracle_price as int);
            lemma_muldiv_bound(
                notional_of(q as int, oracle_price as int),
                notional_of(q as int, oracle_price as int),
                self.params.liquidation_fee_bps as int,
                10_000,
                10_000,
            );
        }
        let not: u128 = mul_div_floor_u128(q, oracle_price as u128, POS_SCALE);
        let raw: u128 = mul_div_ceil_u128(not, self.params.liquidation_fee_bps as u128, 10_000);
        min_u128(max_u128(raw, self.params.min_liquidation_abs.v), self.params.liquidation_fee_cap.v)
    }

    fn close_quantity(&mut self, idx: usize, left: i128, q: u128, oracle_price: u64) -> (r: Result<(), RiskError>)
        requires
            old(self).wf(),
            idx < MAX_ACCOUNTS,
            q <= 100_000_000_000_000_000_000_000_000_000,
            price_ok(oracle_price),
        ensures
            final(self).wf(),
            agrees_unit(
                old(self)@.close_quantity(idx as int, left, q as int, oracle_price),
                r,
                final(self)@,
            ),
    {
        self.attach_effective_position(idx, left)?;
        self.settle_losses(idx)?;
        let fee: u128 = self.liquidation_fee(q, oracle_price);
        let _split: FeeSplit = self.charge_fee_to_insurance(idx, fee)?;
        Ok(())
    }

    /// Liquidate a touched account where it is below maintenance margin.
    fn liquidate_at_oracle_internal(
        &mut self,
        idx: u16,
        oracle_price: u64,
        policy: LiquidationPolicy,
        ctx: &mut InstructionContext,
    ) -> (r: Result<bool, RiskError>)
        requires
            old(self).wf(),
            old(ctx).wf(),
        ensures
            final(self).wf(),
            final(ctx).wf(),
            final(ctx)@.touched == old(ctx)@.touched,
            match r {
                Ok(did) => old(self)@.liquidate_touched(idx, oracle_price, policy, old(ctx)@) == Ok::<
                (EngineState, CtxState, bool),
                RiskError,
                >((final(self)@, final(ctx)@, did)),
                Err(e) => old(self)@.liquidate_touched(idx, oracle_price, policy, old(ctx)@) == Err::<
                (EngineState, CtxState, bool),
                RiskError,
                >(e),
            },
            EngineState::is_no_partial(policy, old(self)@.effective_pos(idx as int)) ==> final(self)@ == old(self)@
                && final(ctx)@ == old(ctx)@,
            !old(self)@.in_use(idx as int) || !price_ok(oracle_price) ==> final(self)@ == old(self)@ && final(ctx)@
                == old(ctx)@,
            r == Ok::<bool, RiskError>(false) ==> final(self)@ == old(self)@ && final(ctx)@ == old(ctx)@,
    {
        proof {
            reveal(EngineState::liquidate_touched);
        }
        let i: usize = idx as usize;
        if !self.is_used(i) {
            return Ok(false);
        }
        if oracle_price == 0 || oracle_price > MAX_ORACLE_PRICE {
            return Err(RiskError::Overflow);
        }
        proof {
            lemma_effective_pos_bound(self@, i as int);
            lemma_notional_bound(self@.effective_pos(i as int), oracle_price as int);
        }
        let q0: i128 = self.effective_pos_q(i);
        if q0 == 0 {
            return Ok(false);
        }
        if self.is_above_maintenance_margin(&self.accounts[i], i, oracle_price) {
            return Ok(false);
        }
        let liq_side: Side = if q0 > 0 {
            Side::Long
        } else {
            Side::Short
        };
        let abs_q0: u128 = abs_i128(q0);
        match policy {
            LiquidationPolicy::ExactPartial(q) => {
                if q == 0 || q >= abs_q0 {
                    return Err(RiskError::Overflow);
                }
                let left: i128 = if q0 > 0 {
                    q0 - (q as i128)
                } else {
                    q0 + (q as i128)
                };
                self.close_quantity(i, left, q, oracle_price)?;
                self.enqueue_adl(ctx, liq_side, q, 0)?;
                proof {
                    lemma_effective_pos_bound(self@, i as int);
                    lemma_notional_bound(self@.effective_pos(i as int), oracle_price as int);
                }
                if !self.is_above_maintenance_margin(&self.accounts[i], i, oracle_price) {
                    return Err(RiskError::Undercollateralized);
                }
                Ok(true)
            },
            LiquidationPolicy::FullClose => {
                self.close_quantity(i, 0, abs_q0, oracle_price)?;
                let eff: i128 = self.effective_pos_q(i);
                let pnl: i128 = self.accounts[i].pnl;
                let d: u128 = if eff == 0 && pnl < 0 {
                    if pnl == i128::MIN {
                        return Err(RiskError::CorruptState);
                    }
                    abs_i128(pnl)
                } else {
                    0
                };
                self.enqueue_adl(ctx, liq_side, abs_q0, d)?;
                if d != 0 {
                    self.set_pnl_without_reserve(i, 0, ReserveMode::NoPositiveIncreaseAllowed)?;
                }
                Ok(true)
            },
        }
    }

    /// Liquidate an account. Tells whether it did: an account above maintenance
    /// margin is left alone.
    pub fn liquidate_at_oracle_not_atomic(
        &mut self,
        idx: u16,
        now_slot: u64,
        oracle_price: u64,
        policy: LiquidationPolicy,
        funding_rate_e9: i128,
        admit_h_min: u64,
        admit_h_max: u64,
    ) -> (r: Result<bool, RiskError>)
        requires
            old(self).wf(),
        ensures
            final(self).wf(),
            agrees(
                old(self)@.liquidate(
                    idx,
                    now_slot,
                    oracle_price,
                    policy,
                    funding_rate_e9,
                    admit_h_min,
                    admit_h_max,
                ),
                r,
                final(self)@,
            ),
            r is Ok ==> final(self)@.conserved() && final(self)@.oi_balanced(),
            old(self)@.start_refused(idx as int, oracle_price, now_slot, funding_rate_e9, admit_h_min, admit_h_max)
                ==> r is Err && final(self)@ == old(self)@,
    {
        proof {
            reveal(EngineState::liquidate);
        }
        RiskEngine::validate_admission_pair(admit_h_min, admit_h_max, &self.params)?;
        if !self.is_used(idx as usize) {
            return Err(RiskError::AccountNotFound);
        }
        if self.market_mode != MarketMode::Live {
            return Err(RiskError::Unauthorized);
        }
        let mut ctx: InstructionContext = InstructionContext::new_with_admission(admit_h_min, admit_h_max);
        self.start_live(idx as usize, oracle_price, now_slot, funding_rate_e9, &mut ctx)?;
        let did: bool = self.liquidate_at_oracle_internal(idx, oracle_price, policy, &mut ctx)?;
        self.finalize_touched_accounts_post_live(&ctx)?;
        self.end_instruction(&mut ctx)?;
        Ok(did)
    }

    /// The policy that a keeper's hint comes to.
    pub(crate) fn validate_keeper_hint(
        &self,
        idx: usize,
        eff: i128,
        hint: Option<LiquidationPolicy>,
        oracle_price: u64,
    ) -> (r: Option<LiquidationPolicy>)
        requires
            self.wf(),
            idx < MAX_ACCOUNTS,
            abs_of(eff as int) <= 100_000_000_000_000_000_000_000_000_000,
            price_ok(oracle_price),
        ensures
            r == self@.keeper_policy(idx as int, eff as int, hint, oracle_price),
    {
        match hint {
            None => None,
            Some(LiquidationPolicy::FullClose) => hint,
            Some(LiquidationPolicy::ExactPartial(q)) => {
                let abs_eff: u128 = abs_i128(eff);
                if q == 0 || q >= abs_eff {
                    return None;
                }
                let account: &Account = &self.accounts[idx];
                let fee: u128 = self.liquidation_fee(q, oracle_price);
                let from_capital: u128 = min_u128(fee, account.capital.v);
                let from_debt: u128 = min_u128(
                    fee - from_capital,
                    RiskEngine::fee_headroom(account.fee_credits.v),
                );
                let applied: u128 = from_capital + from_debt;
                let eq: I256 = self.account_equity_maint_raw_wide(account);
                let predicted: I256 = match eq.checked_sub(&I256::from_u128(applied)) {
                    Some(v) => v,
                    None => {
                        return None;
                    },
                };
                let rem: u128 = abs_eff - q;
                proof {
                    lemma_notional_bound(rem as int, oracle_price as int);
                }
                let mm: u128 = self.mm_req_for(rem as i128, oracle_price);
                if I256::from_u128(mm).is_less_than(&predicted) {
                    hint
                } else {
                    None
                }
            },
        }
    }

    fn crank_one(
        &mut self,
        ctx: &mut InstructionContext,
        cand: &Candidate,
        oracle_price: u64,
    ) -> (r: Result<bool, RiskError>)
        requires
            old(self).wf(),
            old(ctx).wf(),
            old(ctx)@.slots_ok(),
            old(self)@.in_use(cand.0 as int),
            !old(ctx)@.any_reset(),
            price_ok(oracle_price),
        ensures
            final(self).wf(),
            final(ctx).wf(),
            final(ctx)@.slots_ok(),
            forall|attempts: int, liquidations: int, max: int|
            attempts < max ==> match r {
                Ok(did) => (#[trigger] CrankRun { s: old(self)@, c: old(ctx)@, attempts, liquidations }.step(
                        *cand,
                        max,
                        oracle_price,
                )) == Ok::<CrankRun, RiskError>(
                    CrankRun {
                        s: final(self)@,
                        c: final(ctx)@,
                        attempts: attempts + 1,
                        liquidations: liquidations + if did {
                            1int
                        } else {
                            0int
                        },
                    },
                ),
                Err(e) => (#[trigger] CrankRun { s: old(self)@, c: old(ctx)@, attempts, liquidations }.step(
                        *cand,
                        max,
                        oracle_price,
                )) == Err::<CrankRun, RiskError>(e),
            },
    {
        let i: usize = cand.0 as usize;
        self.touch_account_live_local(i, ctx)?;
        if ctx.pending_reset_long || ctx.pending_reset_short {
            return Ok(false);
        }
        proof {
            lemma_effective_pos_bound(self@, i as int);
            lemma_notional_bound(self@.effective_pos(i as int), oracle_price as int);
        }
        let eff: i128 = self.effective_pos_q(i);
        if eff == 0 {
            return Ok(false);
        }
        if self.is_above_maintenance_margin(&self.accounts[i], i, oracle_price) {
            return Ok(false);
        }
        match self.validate_keeper_hint(i, eff, cand.1, oracle_price) {
            None => Ok(false),
            Some(policy) => self.liquidate_at_oracle_internal(cand.0, oracle_price, policy, ctx),
        }
    }

    /// The keeper crank: accrue once, then touch the candidates in order and
    /// liquidate those that are below maintenance margin.
    pub fn keeper_crank_not_atomic(
        &mut self,
        now_slot: u64,
        oracle_price: u64,
        ordered_candidates: &[Candidate],
        max_revalidations: u16,
        funding_rate_e9: i128,
        admit_h_min: u64,
        admit_h_max: u64,
    ) -> (r: Result<CrankOutcome, RiskError>)
        requires
            old(self).wf(),
        ensures
            final(self).wf(),
            agrees(
                old(self)@.keeper_crank(
                    now_slot,
                    oracle_price,
                    ordered_candidates@,
                    max_revalidations,
                    funding_rate_e9,
                    admit_h_min,
                    admit_h_max,
                ),
                r,
                final(self)@,
            ),
            r is Ok ==> final(self)@.conserved() && final(self)@.oi_balanced(),
            old(self)@.crank_refused(
                now_slot,
                oracle_price,
                max_revalidations,
                funding_rate_e9,
                admit_h_min,
                admit_h_max,
            ) ==> r is Err && final(self)@ == old(self)@,
    {
        proof {
            reveal(EngineState::keeper_crank);
        }
        RiskEngine::validate_admission_pair(admit_h_min, admit_h_max, &self.params)?;
        if oracle_price == 0 || oracle_price > MAX_ORACLE_PRICE {
            return Err(RiskError::Overflow);
        }
        if self.market_mode != MarketMode::Live {
            return Err(RiskError::Unauthorized);
        }
        if max_revalidations > MAX_TOUCHED_PER_INSTRUCTION as u16 {
            return Err(RiskError::Overflow);
        }
        let mut ctx: InstructionContext = InstructionContext::new_with_admission(admit_h_min, admit_h_max);
        self.accrue_market_to(now_slot, oracle_price, funding_rate_e9)?;
        let advanced: bool = now_slot > self.last_crank_slot;
        if advanced {
            self.last_crank_slot = now_slot;
        }
        let ghost start = CrankRun { s: self@, c: ctx@, attempts: 0, liquidations: 0 };
        let ghost cands = ordered_candidates@;
        let ghost max = max_revalidations as int;
        let ghost model = old(self)@.keeper_crank(
            now_slot,
            oracle_price,
            cands,
            max_revalidations,
            funding_rate_e9,
            admit_h_min,
            admit_h_max,
        );
        let ghost refused = old(self)@.crank_refused(
            now_slot,
            oracle_price,
            max_revalidations,
            funding_rate_e9,
            admit_h_min,
            admit_h_max,
        );
        let mut attempts: u16 = 0;
        let mut num_liquidations: u32 = 0;
        let mut n: usize = 0;
        while n < ordered_candidates.len()
            invariant
                n <= cands.len(),
                cands == ordered_candidates@,
                !refused,
                refused == old(self)@.crank_refused(
                    now_slot,
                    oracle_price,
                    max_revalidations,
                    funding_rate_e9,
                    admit_h_min,
                    admit_h_max,
                ),
                max == max_revalidations,
                max_revalidations <= 64,
                num_liquidations <= attempts,
                attempts <= max_revalidations,
                self.wf(),
                ctx.wf(),
                ctx@.slots_ok(),
                price_ok(oracle_price),
                start.run(cands, n as nat, max, oracle_price) == Ok::<CrankRun, RiskError>(
                    CrankRun {
                        s: self@,
                        c: ctx@,
                        attempts: attempts as int,
                        liquidations: num_liquidations as int,
                    },
                ),
                start.run(cands, cands.len(), max, oracle_price) matches Err(e) ==> model == Err::<
                (EngineState, CrankOutcome),
                RiskError,
                >(e),
                model == old(self)@.keeper_crank(
                    now_slot,
                    oracle_price,
                    cands,
                    max_revalidations,
                    funding_rate_e9,
                    admit_h_min,
                    admit_h_max,
                ),
            decreases cands.len() - n,
        {
            let cand: Candidate = ordered_candidates[n];
            if attempts < max_revalidations && !ctx.pending_reset_long && !ctx.pending_reset_short && self.is_used(
                cand.0 as usize,
            ) {
                let ghost before = CrankRun {
                    s: self@,
                    c: ctx@,
                    attempts: attempts as int,
                    liquidations: num_liquidations as int,
                };
                match self.crank_one(&mut ctx, &cand, oracle_price) {
                    Ok(did) => {
                        attempts += 1;
                        if did {
                            num_liquidations += 1;
                        }
                    },
                    Err(e) => {
                        proof {
                            assert(before.step(cand, max, oracle_price) == Err::<CrankRun, RiskError>(e));
                            assert(start.run(cands, (n + 1) as nat, max, oracle_price) == Err::<CrankRun, RiskError>(e));
                            lemma_run_stays_failed(start, cands, (n + 1) as nat, cands.len(), max, oracle_price);
                        }
                        return Err(e);
                    },
                }
            }
            n += 1;
        }
        self.finalize_touched_accounts_post_live(&ctx)?;
        self.end_instruction(&mut ctx)?;
        Ok(CrankOutcome { advanced, num_liquidations, num_gc_closed: 0 })
    }
}

proof fn lemma_run_stays_failed(r: CrankRun, cands: Seq<Candidate>, m: nat, n: nat, max: int, price: u64)
    requires
        m <= n,
        r.run(cands, m, max, price) is Err,
    ensures
        r.run(cands, n, max, price) == r.run(cands, m, max, price),
    decreases n,
{
    if m < n {
        lemma_run_stays_failed(r, cands, m, (n - 1) as nat, max, price);
    }
}

} // verus!
