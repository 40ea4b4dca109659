//! Market-wide state: accrual of price and funding, loss absorption,
//! auto-deleveraging of a side, and side resets.

use vstd::prelude::*;
use crate::constants::{ADL_ONE, MAX_ORACLE_PRICE, MIN_A_SIDE, POS_SCALE};
use crate::context::CtxState;
use crate::int128::U128;
use crate::model::{agrees_unit, i128_or, u128_or, u64_or, EngineState};
use crate::types::{
    opposite_side, other_side, InstructionContext, InsuranceFund, MarketMode, RiskEngine, RiskError,
    RiskParams, Side, SideMode,
};
use crate::wide_math::{
    abs_i128, abs_of, ceil_div, ceil_div_positive_checked, lemma_muldiv_bound, min_of, min_u128,
    mul_div_floor_u256_with_rem, muldiv, muldiv_up, pos_of,
    wide_mul_div_ceil_u128_or_over_i128max, I256, U256,
};

verus! {

/// Admission horizons that a live instruction may use under the parameters `p`.
pub open spec fn admission_ok(h_min: u64, h_max: u64, p: RiskParams) -> bool {
    &&& h_max != 0
    &&& p.h_min <= h_max <= p.h_max
    &&& h_min <= h_max
    &&& h_min > 0 ==> h_min >= p.h_min
}

/// How much dust an `A` update can leave on a side with `n` positions and open
/// interest `oi`.
pub open spec fn adl_dust(oi: int, n: int, a_old: int) -> int {
    min_of(n + ceil_div(oi + n, a_old), u128::MAX as int)
}

impl EngineState {
    /// Bring the market to slot `now` and oracle price `price`. Each live side's `K`
    /// moves with the price, and its funding numerator with the funding rate.
    #[verifier::opaque]
    pub open spec fn accrue(self, now: u64, price: u64, rate: i128) -> Result<EngineState, RiskError> {
        if !self.is_live() {
            Err(RiskError::Unauthorized)
        } else if !(0 < price <= MAX_ORACLE_PRICE) {
            Err(RiskError::Overflow)
        } else if abs_of(rate as int) > self.params.max_abs_funding_e9_per_slot {
            Err(RiskError::Overflow)
        } else if self.current_slot > now || self.last_market_slot > now {
            Err(RiskError::Overflow)
        } else {
            let dt = now - self.last_market_slot;
            if dt == 0 && self.last_oracle_price == price {
                Ok(self.at_slot(now))
            } else {
                if dt > self.params.max_accrual_dt_slots {
                    Err(RiskError::Overflow)
                } else {
                    let dp = price - self.last_oracle_price;
                    let long_live = self.oi_eff_long_q != 0;
                    let short_live = self.oi_eff_short_q != 0;
                    match i128_or(
                        self.adl_coeff_long + if long_live {
                            self.adl_mult_long * dp
                        } else {
                            0
                        },
                        RiskError::Overflow,
                    ) {
                        Err(e) => Err(e),
                        Ok(k_long) => match i128_or(
                            self.adl_coeff_short - if short_live {
                                self.adl_mult_short * dp
                            } else {
                                0
                            },
                            RiskError::Overflow,
                        ) {
                            Err(e) => Err(e),
                            Ok(k_short) => {
                                let fund = if long_live && short_live {
                                    self.fund_px_last * rate * dt
                                } else {
                                    0
                                };
                                match i128_or(self.f_long_num - self.adl_mult_long * fund, RiskError::Overflow) {
                                    Err(e) => Err(e),
                                    Ok(f_long) => match i128_or(self.f_short_num + self.adl_mult_short * fund, RiskError::Overflow) {
                                        Err(e) => Err(e),
                                        Ok(f_short) => {
                                            Ok(
                                                EngineState {
                                                    adl_coeff_long: k_long,
                                                    adl_coeff_short: k_short,
                                                    f_long_num: f_long,
                                                    f_short_num: f_short,
                                                    current_slot: now,
                                                    last_market_slot: now,
                                                    last_oracle_price: price,
                                                    fund_px_last: price,
                                                    ..self
                                                },
                                            )
                                        },
                                    },
                                }
                            },
                        },
                    }
                }
            }
        }
    }

    /// How much of `loss` the insurance fund pays: what it holds above its floor, at
    /// most.
    pub open spec fn insured(self, loss: int) -> int {
        min_of(loss, pos_of(self.insurance_fund.balance.v - self.params.insurance_floor.v))
    }

    /// The insurance fund after it has paid for `loss`.
    pub open spec fn absorb_loss(self, loss: int) -> EngineState {
        self.with_insurance((self.insurance_fund.balance.v - self.insured(loss)) as u128)
    }

    /// Spread a deficit `d` over the open interest `oi` of a side through its `K`,
    /// rounded up. A deficit that `K` cannot carry is left to the haircut.
    pub open spec fn socialize(self, s: Side, d: int, oi: int) -> EngineState {
        let dk = muldiv_up(d, self.a_side(s) * POS_SCALE, oi);
        if d != 0 && dk <= i128::MAX && self.k_side(s) - dk >= i128::MIN {
            self.with_k_side(s, (self.k_side(s) - dk) as i128)
        } else {
            self
        }
    }

    /// Take a closed quantity `q` and a deficit `d` of the side `liq` to the other
    /// side: insurance pays first, the rest goes into the other side's `K`, and its
    /// `A` shrinks with its open interest. Sides that run empty are scheduled for a
    /// reset.
    #[verifier::opaque]
    pub open spec fn enqueue_adl(
        self,
        c: CtxState,
        liq: Side,
        q: u128,
        d: u128,
    ) -> Result<(EngineState, CtxState), RiskError> {
        let opp = other_side(liq);
        match u128_or(self.oi_eff(liq) - q, RiskError::CorruptState) {
            Err(e) => Err(e),
            Ok(left) => {
                let s1 = self.with_oi_eff(liq, left);
                let d_rem = d - s1.insured(d as int);
                let s2 = s1.absorb_loss(d as int);
                let oi = s2.oi_eff(opp);
                if oi == 0 {
                    Ok(
                        (
                            s2,
                            if left == 0 {
                                c.with_reset(liq).with_reset(opp)
                            } else {
                                c
                            },
                        ),
                    )
                } else {
                    if q > oi {
                        Err(RiskError::CorruptState)
                    } else {
                        let oi_post = (oi - q) as u128;
                        let drained = if left == 0 {
                            c.with_reset(opp).with_reset(liq)
                        } else {
                            c.with_reset(opp)
                        };
                        if s2.stored_pos_count(opp) == 0 {
                            Ok(
                                (
                                    s2.with_oi_eff(opp, oi_post),
                                    if oi_post == 0 {
                                        drained
                                    } else {
                                        c
                                    },
                                ),
                            )
                        } else {
                            let s3 = s2.socialize(opp, d_rem, oi as int);
                            if oi_post == 0 {
                                Ok((s3.with_oi_eff(opp, 0), drained))
                            } else {
                                s3.shrink_side(c, opp, oi as int, oi_post)
                            }
                        }
                    }
                }
            },
        }
    }

    /// Scale the `A` of side `s` from open interest `oi` to `oi_post`. Where nothing
    /// of `A` is left, both sides are drained.
    pub open spec fn shrink_side(
        self,
        c: CtxState,
        s: Side,
        oi: int,
        oi_post: u128,
    ) -> Result<(EngineState, CtxState), RiskError> {
        let a_old = self.a_side(s) as int;
        let a_new = muldiv(a_old, oi_post as int, oi);
        if a_new > 0 {
            let s1 = self.with_a_side(s, a_new as u128).with_oi_eff(s, oi_post);
            match if oi_post < oi {
                s1.add_dust(s, adl_dust(oi, self.stored_pos_count(s) as int, a_old))
            } else {
                Ok(s1)
            } {
                Err(e) => Err(e),
                Ok(s2) => {
                    Ok(
                        (
                            if a_new < MIN_A_SIDE {
                                s2.with_side_mode(s, SideMode::DrainOnly)
                            } else {
                                s2
                            },
                            c,
                        ),
                    )
                },
            }
        } else {
            Ok(
                (
                    self.with_oi_eff(s, 0).with_oi_eff(other_side(s), 0),
                    c.with_reset(s).with_reset(other_side(s)),
                ),
            )
        }
    }

    /// Begin a new epoch of a drained side. Its stored positions become stale.
    pub open spec fn begin_reset(self, s: Side) -> Result<EngineState, RiskError> {
        if self.oi_eff(s) != 0 {
            Err(RiskError::CorruptState)
        } else {
            match u64_or(self.epoch_side(s) + 1, RiskError::Overflow) {
                Err(e) => Err(e),
                Ok(epoch) => {
                    Ok(
                        match s {
                            Side::Long => EngineState {
                                adl_epoch_start_k_long: self.adl_coeff_long,
                                f_epoch_start_long_num: self.f_long_num,
                                adl_epoch_long: epoch,
                                adl_mult_long: ADL_ONE,
                                stale_account_count_long: self.stored_pos_count_long,
                                phantom_dust_bound_long_q: 0,
                                side_mode_long: SideMode::ResetPending,
                                ..self
                            },
                            Side::Short => EngineState {
                                adl_epoch_start_k_short: self.adl_coeff_short,
                                f_epoch_start_short_num: self.f_short_num,
                                adl_epoch_short: epoch,
                                adl_mult_short: ADL_ONE,
                                stale_account_count_short: self.stored_pos_count_short,
                                phantom_dust_bound_short_q: 0,
                                side_mode_short: SideMode::ResetPending,
                                ..self
                            },
                        },
                    )
                },
            }
        }
    }

    /// A side waits for its reset and nothing of the old epoch is left on it.
    pub open spec fn reset_ready(self, s: Side) -> bool {
        &&& self.side_mode(s) == SideMode::ResetPending
        &&& self.oi_eff(s) == 0
        &&& self.stale_count(s) == 0
        &&& self.stored_pos_count(s) == 0
    }

    /// Reopen one side.
    pub open spec fn finish_reset(self, s: Side) -> Result<EngineState, RiskError> {
        if self.reset_ready(s) {
            Ok(self.with_side_mode(s, SideMode::Normal))
        } else {
            Err(RiskError::CorruptState)
        }
    }

    /// Reopen the sides that are ready.
    pub open spec fn reopen_ready(self) -> EngineState {
        let s1 = if self.reset_ready(Side::Long) {
            self.with_side_mode(Side::Long, SideMode::Normal)
        } else {
            self
        };
        if s1.reset_ready(Side::Short) {
            s1.with_side_mode(Side::Short, SideMode::Normal)
        } else {
            s1
        }
    }

    /// Open interest that may be written off: the dust bounds of the sides without
    /// a stored position.
    pub open spec fn clear_bound(self) -> int {
        (if self.stored_pos_count_long == 0 {
                self.phantom_dust_bound_long_q as int
            } else {
                0
        }) + (if self.stored_pos_count_short == 0 {
                self.phantom_dust_bound_short_q as int
            } else {
                0
        })
    }

    /// Something is left to write off.
    pub open spec fn has_residual(self) -> bool {
        ||| self.oi_eff_long_q != 0
        ||| self.oi_eff_short_q != 0
        ||| self.stored_pos_count_long == 0 && self.phantom_dust_bound_long_q != 0
        ||| self.stored_pos_count_short == 0 && self.phantom_dust_bound_short_q != 0
    }

    /// Decide at the end of an instruction which sides to reset: both where a side
    /// holds no position and the remaining open interest is dust, and a draining
    /// side once its open interest is gone.
    #[verifier::opaque]
    pub open spec fn schedule_resets(self, c: CtxState) -> Result<(EngineState, CtxState), RiskError> {
        let empty = self.stored_pos_count_long == 0 || self.stored_pos_count_short == 0;
        if empty && self.clear_bound() > u128::MAX {
            Err(RiskError::CorruptState)
        } else {
            match if empty && self.has_residual() {
                if !self.oi_balanced() {
                    Err(RiskError::CorruptState)
                } else if self.oi_eff_long_q > self.clear_bound() {
                    Err(RiskError::CorruptState)
                } else {
                    Ok(
                        (
                            EngineState { oi_eff_long_q: 0, oi_eff_short_q: 0, ..self },
                            c.with_reset(Side::Long).with_reset(Side::Short),
                        ),
                    )
                }
            } else {
                Ok((self, c))
            } {
                Err(e) => Err(e),
                Ok(r) => {
                    let s = r.0;
                    let c1 = if s.side_mode_long == SideMode::DrainOnly && s.oi_eff_long_q == 0 {
                        r.1.with_reset(Side::Long)
                    } else {
                        r.1
                    };
                    let c2 = if s.side_mode_short == SideMode::DrainOnly && s.oi_eff_short_q == 0 {
                        c1.with_reset(Side::Short)
                    } else {
                        c1
                    };
                    Ok((s, c2))
                },
            }
        }
    }

    /// Begin the scheduled resets, and reopen the sides that are ready.
    #[verifier::opaque]
    pub open spec fn finalize_resets(self, c: CtxState) -> Result<EngineState, RiskError> {
        match if c.pending_reset_long && self.side_mode_long != SideMode::ResetPending {
            self.begin_reset(Side::Long)
        } else {
            Ok(self)
        } {
            Err(e) => Err(e),
            Ok(s1) => match if c.pending_reset_short && s1.side_mode_short != SideMode::ResetPending {
                s1.begin_reset(Side::Short)
            } else {
                Ok(s1)
            } {
                Err(e) => Err(e),
                Ok(s2) => Ok(s2.reopen_ready()),
            },
        }
    }

    /// The end of every live instruction: schedule and begin resets, then check the
    /// postconditions.
    pub open spec fn end_instruction(self, c: CtxState) -> Result<EngineState, RiskError> {
        match self.schedule_resets(c) {
            Err(e) => Err(e),
            Ok(r) => match r.0.finalize_resets(r.1) {
                Err(e) => Err(e),
                Ok(s) => s.postconditions(),
            },
        }
    }
}

proof fn lemma_abs_product(a: int, x: int, b: int, y: int)
    requires
        abs_of(a) <= x,
        abs_of(b) <= y,
    ensures
        abs_of(a * b) <= x * y,
{
    let p = abs_of(a);
    let q = abs_of(b);
    assert(p * q <= x * y) by (nonlinear_arith)
        requires
            0 <= p <= x,
            0 <= q <= y,
        ;
    assert(abs_of(a * b) == p * q) by {
        if a < 0 && b < 0 {
            assert(a * b == (-a) * (-b)) by (nonlinear_arith);
        } else if a < 0 {
            assert(a * b == -((-a) * b)) by (nonlinear_arith);
        } else if b < 0 {
            assert(a * b == -(a * (-b))) by (nonlinear_arith);
        }
        if a * b < 0 {
        } else {
        }
        assert(p * q >= 0) by (nonlinear_arith)
            requires
                p >= 0,
                q >= 0,
            ;
    }
}

impl RiskEngine {
    /// Bring the market to a slot and an oracle price.
    pub fn accrue_market_to(
        &mut self,
        now_slot: u64,
        oracle_price: u64,
        funding_rate_e9: i128,
    ) -> (r: Result<(), RiskError>)
        requires
            old(self).wf(),
        ensures
            final(self).wf(),
            agrees_unit(old(self)@.accrue(now_slot, oracle_price, funding_rate_e9), r, final(self)@),
            r is Err ==> final(self)@ == old(self)@,
    {
        proof {
            reveal(EngineState::accrue);
        }
        if self.market_mode != MarketMode::Live {
            return Err(RiskError::Unauthorized);
        }
        if oracle_price == 0 || oracle_price > MAX_ORACLE_PRICE {
            return Err(RiskError::Overflow);
        }
        if abs_i128(funding_rate_e9) > self.params.max_abs_funding_e9_per_slot as u128 {
            return Err(RiskError::Overflow);
        }
        if now_slot < self.current_slot {
            return Err(RiskError::Overflow);
        }
        if now_slot < self.last_market_slot {
            return Err(RiskError::Overflow);
        }
        let long_live: bool = self.oi_eff_long_q != 0;
        let short_live: bool = self.oi_eff_short_q != 0;
        let total_dt: u64 = now_slot - self.last_market_slot;
        if total_dt == 0 && self.last_oracle_price == oracle_price {
            self.current_slot = now_slot;
            return Ok(());
        }
        if total_dt > self.params.max_accrual_dt_slots {
            return Err(RiskError::Overflow);
        }
        let delta_p: i128 = oracle_price as i128 - self.last_oracle_price as i128;
        let dp_wide: I256 = I256::from_i128(delta_p);
        let a_long: I256 = I256::from_u128(self.adl_mult_long);
        let a_short: I256 = I256::from_u128(self.adl_mult_short);
        let mut k_long: i128 = self.adl_coeff_long;
        let mut k_short: i128 = self.adl_coeff_short;
        proof {
            lemma_abs_product(a_long@, ADL_ONE as int, dp_wide@, u64::MAX as int);
            lemma_abs_product(a_short@, ADL_ONE as int, dp_wide@, u64::MAX as int);
        }
        if long_live {
            let dk: I256 = a_long.checked_mul_i256(&dp_wide).ok_or(RiskError::Overflow)?;
            let k: I256 = I256::from_i128(k_long).checked_add(&dk).ok_or(RiskError::Overflow)?;
            k_long = k.try_into_i128().ok_or(RiskError::Overflow)?;
        }
        if short_live {
            let dk: I256 = a_short.checked_mul_i256(&dp_wide).ok_or(RiskError::Overflow)?;
            let k: I256 = I256::from_i128(k_short).checked_sub(&dk).ok_or(RiskError::Overflow)?;
            k_short = k.try_into_i128().ok_or(RiskError::Overflow)?;
        }
        let mut f_long: i128 = self.f_long_num;
        let mut f_short: i128 = self.f_short_num;
        if long_live && short_live {
            let px: I256 = I256::from_u128(self.fund_px_last as u128);
            let rate: I256 = I256::from_i128(funding_rate_e9);
            let dt: I256 = I256::from_u128(total_dt as u128);
            proof {
                let cap = 0x1_0000_0000_0000_0000int * 1_000_000_000int;
                lemma_abs_product(px@, 0x1_0000_0000_0000_0000int, rate@, 1_000_000_000int);
                lemma_abs_product(px@ * rate@, cap, dt@, 0x1_0000_0000_0000_0000int);
                let fund = self.fund_px_last * funding_rate_e9 * (now_slot - self.last_market_slot);
                assert(fund == px@ * rate@ * dt@);
                lemma_abs_product(a_long@, ADL_ONE as int, fund, cap * 0x1_0000_0000_0000_0000int);
                lemma_abs_product(a_short@, ADL_ONE as int, fund, cap * 0x1_0000_0000_0000_0000int);
            }
            let px_rate: I256 = px.checked_mul_i256(&rate).ok_or(RiskError::Overflow)?;
            let fund: I256 = px_rate.checked_mul_i256(&dt).ok_or(RiskError::Overflow)?;
            let df_long: I256 = a_long.checked_mul_i256(&fund).ok_or(RiskError::Overflow)?;
            let fl: I256 = I256::from_i128(f_long).checked_sub(&df_long).ok_or(RiskError::Overflow)?;
            f_long = fl.try_into_i128().ok_or(RiskError::Overflow)?;
            let df_short: I256 = a_short.checked_mul_i256(&fund).ok_or(RiskError::Overflow)?;
            let fs: I256 = I256::from_i128(f_short).checked_add(&df_short).ok_or(RiskError::Overflow)?;
            f_short = fs.try_into_i128().ok_or(RiskError::Overflow)?;
        }
        self.adl_coeff_long = k_long;
        self.adl_coeff_short = k_short;
        self.f_long_num = f_long;
        self.f_short_num = f_short;
        self.current_slot = now_slot;
        self.last_market_slot = now_slot;
        self.last_oracle_price = oracle_price;
        self.fund_px_last = oracle_price;
        Ok(())
    }

    /// Check the admission horizons of a live instruction.
    pub fn validate_admission_pair(
        admit_h_min: u64,
        admit_h_max: u64,
        params: &RiskParams,
    ) -> (r: Result<(), RiskError>)
        ensures
            r == (if admission_ok(admit_h_min, admit_h_max, *params) {
                    Ok::<(), RiskError>(())
                } else {
                    Err::<(), RiskError>(RiskError::Overflow)
            }),
    {
        if admit_h_max == 0 {
            return Err(RiskError::Overflow);
        }
        if admit_h_max < params.h_min {
            return Err(RiskError::Overflow);
        }
        if admit_h_min > admit_h_max {
            return Err(RiskError::Overflow);
        }
        if admit_h_max > params.h_max {
            return Err(RiskError::Overflow);
        }
        if admit_h_min > 0 && admit_h_min < params.h_min {
            return Err(RiskError::Overflow);
        }
        Ok(())
    }

    /// Pay for a loss from the insurance fund, down to its floor. Returns what is
    /// not covered.
    pub(crate) fn use_insurance_buffer(&mut self, loss: u128) -> (r: u128)
        requires
            old(self).wf(),
        ensures
            final(self).wf(),
            final(self)@ == old(self)@.absorb_loss(loss as int),
            r == loss - old(self)@.insured(loss as int),
    {
        let bal: u128 = self.insurance_fund.balance.v;
        let available: u128 = bal.saturating_sub(self.params.insurance_floor.v);
        let pay: u128 = min_u128(loss, available);
        self.insurance_fund = InsuranceFund { balance: U128 { v: bal - pay } };
        loss - pay
    }

    /// Pay for a loss from the insurance fund; the rest is left to the haircut.
    pub(crate) fn absorb_protocol_loss(&mut self, loss: u128)
        requires
            old(self).wf(),
        ensures
            final(self).wf(),
            final(self)@ == old(self)@.absorb_loss(loss as int),
    {
        let _rest: u128 = self.use_insurance_buffer(loss);
    }

    fn socialize(&mut self, opp: Side, d_rem: u128, oi: u128)
        requires
            old(self).wf(),
            oi > 0,
        ensures
            final(self).wf(),
            final(self)@ == old(self)@.socialize(opp, d_rem as int, oi as int),
    {
        if d_rem == 0 {
            return ;
        }
        let a_ps: u128 = self.get_a_side(opp) * POS_SCALE;
        match wide_mul_div_ceil_u128_or_over_i128max(d_rem, a_ps, oi) {
            Ok(delta_k) => {
                proof {
                    lemma_muldiv_bound(d_rem as int, d_rem as int, a_ps as int, a_ps as int, oi as int);
                }
                let k: i128 = self.get_k_side(opp);
                match k.checked_add(-(delta_k as i128)) {
                    Some(new_k) => {
                        self.set_k_side(opp, new_k);
                    },
                    None => {},
                }
            },
            Err(_) => {},
        }
    }

    fn shrink_side(
        &mut self,
        ctx: &mut InstructionContext,
        s: Side,
        oi: u128,
        oi_post: u128,
    ) -> (r: Result<(), RiskError>)
        requires
            old(self).wf(),
            old(ctx).wf(),
            0 < oi_post <= oi,
        ensures
            final(self).wf(),
            final(ctx).wf(),
            final(ctx)@.touched == old(ctx)@.touched,
            match r {
                Ok(_) => old(self)@.shrink_side(old(ctx)@, s, oi as int, oi_post) == Ok::<
                (EngineState, CtxState),
                RiskError,
                >((final(self)@, final(ctx)@)),
                Err(e) => old(self)@.shrink_side(old(ctx)@, s, oi as int, oi_post) == Err::<
                (EngineState, CtxState),
                RiskError,
                >(e),
            },
    {
        let a_old: u128 = self.get_a_side(s);
        let (a_cand, _m): (U256, U256) = mul_div_floor_u256_with_rem(a_old, oi_post, oi);
        proof {
            lemma_shrinks(a_old as int, oi_post as int, oi as int);
        }
        if a_cand.is_zero() {
            self.set_oi_eff(s, 0);
            self.set_oi_eff(opposite_side(s), 0);
            ctx.set_pending_reset(s);
            ctx.set_pending_reset(opposite_side(s));
            return Ok(());
        }
        let a_new: u128 = a_cand.lo;
        assert(a_new == a_cand@);
        self.set_a_side(s, a_new);
        self.set_oi_eff(s, oi_post);
        if oi_post < oi {
            let n: u128 = self.get_stored_pos_count(s) as u128;
            let dust: u128 = RiskEngine::dust_from_shrinking(oi, n, a_old);
            self.inc_phantom_dust_bound_by(s, dust)?;
        }
        if a_new < MIN_A_SIDE {
            self.set_side_mode(s, SideMode::DrainOnly);
        }
        Ok(())
    }

    fn dust_from_shrinking(oi: u128, n: u128, a_old: u128) -> (r: u128)
        requires
            a_old > 0,
            n <= u64::MAX,
        ensures
            r == adl_dust(oi as int, n as int, a_old as int),
    {
        let oi_plus_n: U256 = match U256::from_u128(oi).checked_add(&U256::from_u128(n)) {
            Some(v) => v,
            None => U256 { hi: u128::MAX, lo: u128::MAX },
        };
        proof {
            lemma_quotient_le(oi_plus_n@, a_old as int);
        }
        let up: U256 = ceil_div_positive_checked(oi_plus_n, U256::from_u128(a_old));
        let bound: U256 = match U256::from_u128(n).checked_add(&up) {
            Some(v) => v,
            None => U256 { hi: u128::MAX, lo: u128::MAX },
        };
        match bound.try_into_u128() {
            Some(v) => v,
            None => u128::MAX,
        }
    }

    /// Take a closed quantity and a deficit of one side to the other.
    pub(crate) fn enqueue_adl(
        &mut self,
        ctx: &mut InstructionContext,
        liq_side: Side,
        q_close_q: u128,
        d: u128,
    ) -> (r: Result<(), RiskError>)
        requires
            old(self).wf(),
            old(ctx).wf(),
        ensures
            final(self).wf(),
            final(ctx).wf(),
            final(ctx)@.touched == old(ctx)@.touched,
            match r {
                Ok(_) => old(self)@.enqueue_adl(old(ctx)@, liq_side, q_close_q, d) == Ok::<
                (EngineState, CtxState),
                RiskError,
                >((final(self)@, final(ctx)@)),
                Err(e) => old(self)@.enqueue_adl(old(ctx)@, liq_side, q_close_q, d) == Err::<
                (EngineState, CtxState),
                RiskError,
                >(e),
            },
    {
        proof {
            reveal(EngineState::enqueue_adl);
        }
        let opp: Side = opposite_side(liq_side);
        let left: u128 = self.get_oi_eff(liq_side).checked_sub(q_close_q).ok_or(RiskError::CorruptState)?;
        self.set_oi_eff(liq_side, left);
        let d_rem: u128 = self.use_insurance_buffer(d);
        let oi: u128 = self.get_oi_eff(opp);
        if oi == 0 {
            if left == 0 {
                ctx.set_pending_reset(liq_side);
                ctx.set_pending_reset(opp);
            }
            return Ok(());
        }
        if q_close_q > oi {
            return Err(RiskError::CorruptState);
        }
        let oi_post: u128 = oi - q_close_q;
        if self.get_stored_pos_count(opp) == 0 {
            self.set_oi_eff(opp, oi_post);
            if oi_post == 0 {
                ctx.set_pending_reset(opp);
                if left == 0 {
                    ctx.set_pending_reset(liq_side);
                }
            }
            return Ok(());
        }
        self.socialize(opp, d_rem, oi);
        if oi_post == 0 {
            self.set_oi_eff(opp, 0);
            ctx.set_pending_reset(opp);
            if left == 0 {
                ctx.set_pending_reset(liq_side);
            }
            return Ok(());
        }
        self.shrink_side(ctx, opp, oi, oi_post)
    }

    /// Begin a new epoch of a drained side.
    pub(crate) fn begin_full_drain_reset(&mut self, side: Side) -> (r: Result<(), RiskError>)
        requires
            old(self).wf(),
        ensures
            final(self).wf(),
            agrees_unit(old(self)@.begin_reset(side), r, final(self)@),
    {
        if self.get_oi_eff(side) != 0 {
            return Err(RiskError::CorruptState);
        }
        let epoch: u64 = self.get_epoch_side(side).checked_add(1).ok_or(RiskError::Overflow)?;
        match side {
            Side::Long => {
                self.adl_epoch_start_k_long = self.adl_coeff_long;
                self.f_epoch_start_long_num = self.f_long_num;
                self.adl_epoch_long = epoch;
                self.adl_mult_long = ADL_ONE;
                self.stale_account_count_long = self.stored_pos_count_long;
                self.phantom_dust_bound_long_q = 0;
                self.side_mode_long = SideMode::ResetPending;
            },
            Side::Short => {
                self.adl_epoch_start_k_short = self.adl_coeff_short;
                self.f_epoch_start_short_num = self.f_short_num;
                self.adl_epoch_short = epoch;
                self.adl_mult_short = ADL_ONE;
                self.stale_account_count_short = self.stored_pos_count_short;
                self.phantom_dust_bound_short_q = 0;
                self.side_mode_short = SideMode::ResetPending;
            },
        }
        Ok(())
    }

    fn reset_ready(&self, side: Side) -> (r: bool)
        ensures
            r == self@.reset_ready(side),
    {
        self.get_side_mode(side) == SideMode::ResetPending && self.get_oi_eff(side) == 0
            && self.get_stale_count(side) == 0 && self.get_stored_pos_count(side) == 0
    }

    /// Reopen one side. It fails where the side is not drained for a reset.
    pub fn finalize_side_reset(&mut self, side: Side) -> (r: Result<(), RiskError>)
        requires
            old(self).wf(),
        ensures
            final(self).wf(),
            agrees_unit(old(self)@.finish_reset(side), r, final(self)@),
    {
        if !self.reset_ready(side) {
            return Err(RiskError::CorruptState);
        }
        self.set_side_mode(side, SideMode::Normal);
        Ok(())
    }

    /// Reopen the sides that are ready.
    pub(crate) fn maybe_finalize_ready_reset_sides(&mut self)
        requires
            old(self).wf(),
        ensures
            final(self).wf(),
            final(self)@ == old(self)@.reopen_ready(),
    {
        if self.reset_ready(Side::Long) {
            self.set_side_mode(Side::Long, SideMode::Normal);
        }
        if self.reset_ready(Side::Short) {
            self.set_side_mode(Side::Short, SideMode::Normal);
        }
    }

    /// Decide which sides to reset at the end of an instruction.
    pub(crate) fn schedule_end_of_instruction_resets(
        &mut self,
        ctx: &mut InstructionContext,
    ) -> (r: Result<(), RiskError>)
        requires
            old(self).wf(),
            old(ctx).wf(),
        ensures
            final(self).wf(),
            final(ctx).wf(),
            match r {
                Ok(_) => old(self)@.schedule_resets(old(ctx)@) == Ok::<(EngineState, CtxState), RiskError>(
                    (final(self)@, final(ctx)@),
                ),
                Err(e) => old(self)@.schedule_resets(old(ctx)@) == Err::<(EngineState, CtxState), RiskError>(e),
            },
    {
        proof {
            reveal(EngineState::schedule_resets);
        }
        let empty_long: bool = self.stored_pos_count_long == 0;
        let empty_short: bool = self.stored_pos_count_short == 0;
        if empty_long || empty_short {
            let dust_long: u128 = if empty_long {
                self.phantom_dust_bound_long_q
            } else {
                0
            };
            let dust_short: u128 = if empty_short {
                self.phantom_dust_bound_short_q
            } else {
                0
            };
            let clear_bound: u128 = dust_long.checked_add(dust_short).ok_or(RiskError::CorruptState)?;
            if self.oi_eff_long_q != 0 || self.oi_eff_short_q != 0 || dust_long != 0 || dust_short != 0 {
                if self.oi_eff_long_q != self.oi_eff_short_q {
                    return Err(RiskError::CorruptState);
                }
                if self.oi_eff_long_q > clear_bound {
                    return Err(RiskError::CorruptState);
                }
                self.oi_eff_long_q = 0;
                self.oi_eff_short_q = 0;
                ctx.set_pending_reset(Side::Long);
                ctx.set_pending_reset(Side::Short);
            }
        }
        if self.side_mode_long == SideMode::DrainOnly && self.oi_eff_long_q == 0 {
            ctx.set_pending_reset(Side::Long);
        }
        if self.side_mode_short == SideMode::DrainOnly && self.oi_eff_short_q == 0 {
            ctx.set_pending_reset(Side::Short);
        }
        Ok(())
    }

    /// Begin the scheduled resets, and reopen the sides that are ready.
    pub(crate) fn finalize_end_of_instruction_resets(&mut self, ctx: &InstructionContext) -> (r: Result<(), RiskError>)
        requires
            old(self).wf(),
        ensures
            final(self).wf(),
            agrees_unit(old(self)@.finalize_resets(ctx@), r, final(self)@),
    {
        proof {
            reveal(EngineState::finalize_resets);
        }
        if ctx.pending_reset_long && self.side_mode_long != SideMode::ResetPending {
            self.begin_full_drain_reset(Side::Long)?;
        }
        if ctx.pending_reset_short && self.side_mode_short != SideMode::ResetPending {
            self.begin_full_drain_reset(Side::Short)?;
        }
        self.maybe_finalize_ready_reset_sides();
        Ok(())
    }

    /// Whether the vault covers all capital and the insurance fund.
    pub fn check_conservation(&self) -> (r: bool)
        ensures
            r == self@.conserved(),
    {
        match self.c_tot.v.checked_add(self.insurance_fund.balance.v) {
            Some(s) => self.vault.v >= s,
            None => false,
        }
    }

    /// What every public operation checks at its end.
    pub(crate) fn assert_public_postconditions(&self) -> (r: Result<(), RiskError>)
        ensures
            agrees_unit(self@.postconditions(), r, self@),
    {
        if !self.check_conservation() {
            return Err(RiskError::CorruptState);
        }
        if self.oi_eff_long_q != self.oi_eff_short_q {
            return Err(RiskError::CorruptState);
        }
        Ok(())
    }

    /// The end of every live instruction.
    pub(crate) fn end_instruction(&mut self, ctx: &mut InstructionContext) -> (r: Result<(), RiskError>)
        requires
            old(self).wf(),
            old(ctx).wf(),
        ensures
            final(self).wf(),
            agrees_unit(old(self)@.end_instruction(old(ctx)@), r, final(self)@),
    {
        self.schedule_end_of_instruction_resets(ctx)?;
        self.finalize_end_of_instruction_resets(ctx)?;
        self.assert_public_postconditions()
    }
}

/// Scaling by a fraction does not grow.
proof fn lemma_shrinks(a: int, x: int, y: int)
    requires
        a >= 0,
        0 < x <= y,
    ensures
        0 <= muldiv(a, x, y) <= a,
{
    assert(a * x <= a * y) by (nonlinear_arith)
        requires
            a >= 0,
            x <= y,
        ;
    assert(0 <= a * x) by (nonlinear_arith)
        requires
            a >= 0,
            0 < x,
        ;
    vstd::arithmetic::div_mod::lemma_div_is_ordered(0, a * x, y);
    vstd::arithmetic::div_mod::lemma_div_is_ordered(a * x, a * y, y);
    vstd::arithmetic::div_mod::lemma_div_multiples_vanish(a, y);
    assert(a * y == y * a) by (nonlinear_arith);
    assert(0int / y == 0) by (nonlinear_arith)
        requires
            y > 0,
        ;
}

proof fn lemma_quotient_le(n: int, d: int)
    requires
        n >= 0,
        d >= 1,
    ensures
        0 <= n / d <= n,
{
    assert(0 <= n / d <= n) by (nonlinear_arith)
        requires
            n >= 0,
            d >= 1,
        ;
}

} // verus!
