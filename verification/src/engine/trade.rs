//! Trades between two accounts.

use vstd::prelude::*;
use crate::constants::{
    MAX_ACCOUNTS, MAX_ACCOUNT_NOTIONAL, MAX_OI_SIDE_Q, MAX_ORACLE_PRICE, MAX_POSITION_ABS_Q,
    MAX_TRADE_SIZE_Q, POS_SCALE,
};
use crate::context::CtxState;
use crate::engine::accounts::price_ok;
use crate::engine::equity::{bps_of, lemma_notional_bound, notional_of};
use crate::engine::market::admission_ok;
use crate::engine::positions::lemma_effective_pos_bound;
use crate::engine::settlement::FeeSplit;
use crate::model::{agrees_unit, i128_or, u128_or, EngineState};
use crate::types::{
    Account, InstructionContext, MarketMode, ReserveMode, RiskEngine, RiskError, SideMode,
};
use crate::wide_math::{
    I256, U256, abs_i128, abs_of, ceil_div, lemma_muldiv_bound, max_of, max_u128,
    mul_div_ceil_u128, mul_div_floor_u128, mul_div_floor_u256_with_rem, muldiv_up, neg_of,
    pos_of, widening_mul,
};

verus! {

/// The PnL of a trade of `size` against a price difference, rounded down.
pub open spec fn trade_pnl_of(size: int, price_diff: int) -> int {
    (size * price_diff) / (POS_SCALE as int)
}

/// The value where its magnitude is at most `i128::MAX`.
pub open spec fn symmetric_i128_or(v: int, e: RiskError) -> Result<i128, RiskError> {
    if -i128::MAX <= v <= i128::MAX {
        Ok(v as i128)
    } else {
        Err(e)
    }
}

/// The trade leaves more at risk: a larger position, one on the other side, or
/// one where there was none.
pub open spec fn risk_increasing(old_q: int, new_q: int) -> bool {
    ||| abs_of(new_q) > abs_of(old_q)
    ||| old_q > 0 && new_q < 0
    ||| old_q < 0 && new_q > 0
    ||| old_q == 0
}

/// The trade makes a position smaller and keeps its side.
pub open spec fn strictly_reducing(old_q: int, new_q: int) -> bool {
    &&& (old_q > 0 && new_q > 0) || (old_q < 0 && new_q < 0)
    &&& abs_of(new_q) < abs_of(old_q)
}

/// One account's part in a trade: its position before and after, its
/// maintenance equity before, what fees took from it, and the trade's PnL.
pub struct TradeLeg {
    pub old_q: i128,
    pub new_q: i128,
    pub equity_pre: I256,
    pub fee_impact: u128,
    pub trade_pnl: i128,
}

impl EngineState {
    /// Margin after a trade, for account `i`. Closing out must not deepen a
    /// shortfall, but for fees. Taking more risk needs initial margin. Otherwise
    /// maintenance margin is enough, and below it a trade that makes the position
    /// smaller, improves the buffer and deepens no shortfall, but for fees.
    pub open spec fn trade_margin_ok(self, i: int, price: u64, leg: TradeLeg) -> bool {
        let old_q = leg.old_q as int;
        let new_q = leg.new_q as int;
        let a = self.accounts[i];
        let post = a.equity_maint() + leg.fee_impact;
        let pre = leg.equity_pre@;
        if new_q == 0 {
            neg_of(post) >= neg_of(pre)
        } else if risk_increasing(old_q, new_q) {
            self.above_init_trade(a, i, price as int, leg.trade_pnl as int)
        } else {
            ||| self.above_maint(a, i, price as int)
            ||| {
                &&& strictly_reducing(old_q, new_q)
                &&& post - self.mm_with_floor(i, price) > pre - self.mm_for(old_q, price as int)
                &&& neg_of(post) >= neg_of(pre)
            }
        }
    }

    /// Maintenance margin of account `i`, with the floor in any case.
    pub open spec fn mm_with_floor(self, i: int, price: u64) -> int {
        max_of(
            bps_of(self.notional_at(i, price as int), self.params.maintenance_margin_bps as int),
            self.params.min_nonzero_mm_req as int,
        )
    }

    /// Open interest of both sides once two positions change.
    pub open spec fn oi_after(self, old_a: int, new_a: int, old_b: int, new_b: int) -> Result<(u128, u128), RiskError> {
        match oi_side_after(
            self.oi_eff_long_q as int,
            pos_of(old_a),
            pos_of(old_b),
            pos_of(new_a),
            pos_of(new_b),
        ) {
            Err(e) => Err(e),
            Ok(long) => match oi_side_after(
                self.oi_eff_short_q as int,
                pos_of(-old_a),
                pos_of(-old_b),
                pos_of(-new_a),
                pos_of(-new_b),
            ) {
                Err(e) => Err(e),
                Ok(short) => Ok((long, short)),
            },
        }
    }

    /// A side takes no more open interest, and this would add some.
    pub open spec fn side_blocked(self, oi_long: u128, oi_short: u128) -> bool {
        ||| self.side_mode_long != SideMode::Normal && oi_long > self.oi_eff_long_q
        ||| self.side_mode_short != SideMode::Normal && oi_short > self.oi_eff_short_q
    }

    /// Add a trade's PnL to account `i`; a gain is reserved.
    pub open spec fn book_trade_pnl(self, i: int, pnl: int, c: CtxState) -> Result<(EngineState, CtxState), RiskError> {
        match i128_or(self.accounts[i].pnl + pnl, RiskError::Overflow) {
            Err(e) => Err(e),
            Ok(p) => {
                self.set_pnl(i, p, ReserveMode::UseAdmissionPair(c.admit_h_min, c.admit_h_max), c)
            },
        }
    }

    /// The trading fee of each side.
    pub open spec fn trading_fee(self, size: int, exec_price: int) -> int {
        muldiv_up(notional_of(size, exec_price), self.params.trading_fee_bps as int, 10_000)
    }

    /// What a trade's arguments must satisfy by themselves.
    pub open spec fn trade_args_ok(self, price: u64, size: i128, exec_price: u64, h_min: u64, h_max: u64) -> bool {
        &&& admission_ok(h_min, h_max, self.params)
        &&& price_ok(price)
        &&& price_ok(exec_price)
        &&& 0 < size <= MAX_TRADE_SIZE_Q
        &&& notional_of(size as int, exec_price as int) <= MAX_ACCOUNT_NOTIONAL
    }

    /// A position within the limits.
    pub open spec fn position_ok(q: int, price: int) -> bool {
        abs_of(q) <= MAX_POSITION_ABS_Q && notional_of(q, price) <= MAX_ACCOUNT_NOTIONAL
    }

    /// Both legs of a trade on settled accounts: positions, open interest, PnL,
    /// losses and fees. Gives the legs for the margin check.
    #[verifier::opaque]
    pub open spec fn apply_trade(
        self,
        c: CtxState,
        a: int,
        b: int,
        price: u64,
        size: i128,
        exec_price: u64,
        eq_a: I256,
        eq_b: I256,
    ) -> Result<(EngineState, CtxState, TradeLeg, TradeLeg), RiskError> {
        let old_a = self.effective_pos(a);
        let old_b = self.effective_pos(b);
        let new_a = old_a + size;
        let new_b = old_b - size;
        if !(EngineState::position_ok(new_a, price as int) && EngineState::position_ok(
                new_b,
                price as int,
        )) {
            Err(RiskError::Overflow)
        } else {
            let s1 = self.reopen_ready();
            match s1.oi_after(old_a, new_a, old_b, new_b) {
                Err(e) => Err(e),
                Ok(oi) => {
                    if oi.0 > MAX_OI_SIDE_Q || oi.1 > MAX_OI_SIDE_Q {
                        Err(RiskError::Overflow)
                    } else if s1.side_blocked(oi.0, oi.1) {
                        Err(RiskError::SideBlocked)
                    } else {
                        match symmetric_i128_or(trade_pnl_of(size as int, price - exec_price), RiskError::Overflow) {
                            Err(e) => Err(e),
                            Ok(pnl) => match s1.book_trade_pnl(a, pnl as int, c) {
                                Err(e) => Err(e),
                                Ok(r2) => match r2.0.book_trade_pnl(b, -(pnl as int), r2.1) {
                                    Err(e) => Err(e),
                                    Ok(r3) => match r3.0.attach_position(a, new_a as i128) {
                                        Err(e) => Err(e),
                                        Ok(s4) => match s4.attach_position(b, new_b as i128) {
                                            Err(e) => Err(e),
                                            Ok(s5) => {
                                                let s6 = EngineState {
                                                    oi_eff_long_q: oi.0,
                                                    oi_eff_short_q: oi.1,
                                                    ..s5
                                                };
                                                match s6.settle_losses(a) {
                                                    Err(e) => Err(e),
                                                    Ok(s7) => match s7.settle_losses(b) {
                                                        Err(e) => Err(e),
                                                        Ok(s8) => {
                                                            let fee = s8.trading_fee(size as int, exec_price as int) as u128;
                                                            match s8.charge_fee(a, fee) {
                                                                Err(e) => Err(e),
                                                                Ok(r9) => match r9.0.charge_fee(b, fee) {
                                                                    Err(e) => Err(e),
                                                                    Ok(r10) => {
                                                                        let s10 = r10.0;
                                                                        if new_a == 0 && s10.accounts[a].pnl < 0 {
                                                                            Err(RiskError::Undercollateralized)
                                                                        } else if new_b == 0
                                                                            && s10.accounts[b].pnl < 0 {
                                                                            Err(RiskError::Undercollateralized)
                                                                        } else {
                                                                            Ok(
                                                                                (
                                                                                    s10,
                                                                                    r3.1,
                                                                                    TradeLeg {
                                                                                        old_q: old_a as i128,
                                                                                        new_q: new_a as i128,
                                                                                        equity_pre: eq_a,
                                                                                        fee_impact: r9.1.impact,
                                                                                        trade_pnl: pnl,
                                                                                    },
                                                                                    TradeLeg {
                                                                                        old_q: old_b as i128,
                                                                                        new_q: new_b as i128,
                                                                                        equity_pre: eq_b,
                                                                                        fee_impact: r10.1.impact,
                                                                                        trade_pnl: (-pnl) as i128,
                                                                                    },
                                                                                ),
                                                                            )
                                                                        }
                                                                    },
                                                                },
                                                            }
                                                        },
                                                    },
                                                }
                                            },
                                        },
                                    },
                                },
                            },
                        }
                    }
                },
            }
        }
    }

    /// A trade is refused before anything changes: for its arguments, or because the
    /// market cannot be accrued.
    pub open spec fn trade_refused(
        self,
        a: u16,
        b: u16,
        price: u64,
        now: u64,
        size: i128,
        exec_price: u64,
        rate: i128,
        h_min: u64,
        h_max: u64,
    ) -> bool {
        ||| !self.trade_args_ok(price, size, exec_price, h_min, h_max)
        ||| !self.in_use(a as int)
        ||| !self.in_use(b as int)
        ||| a == b
        ||| !self.is_live()
        ||| self.accrue(now, price, rate) is Err
    }

    /// Trade `size` at `exec_price`: account `a` buys from account `b`. The two
    /// wide equities are those of `a` and `b` once both are settled.
    #[verifier::opaque]
    pub open spec fn execute_trade(
        self,
        a: u16,
        b: u16,
        price: u64,
        now: u64,
        size: i128,
        exec_price: u64,
        rate: i128,
        h_min: u64,
        h_max: u64,
    ) -> Result<EngineState, RiskError> {
        if !self.trade_args_ok(price, size, exec_price, h_min, h_max) {
            Err(RiskError::Overflow)
        } else if !self.in_use(a as int) || !self.in_use(b as int) {
            Err(RiskError::AccountNotFound)
        } else if a == b {
            Err(RiskError::Overflow)
        } else if !self.is_live() {
            Err(RiskError::Unauthorized)
        } else {
            match self.start_live(a as int, price, now, rate, h_min, h_max) {
                Err(e) => Err(e),
                Ok(r1) => match r1.0.touch(b as int, r1.1) {
                    Err(e) => Err(e),
                    Ok(r2) => {
                        let eq_a = exact(r2.0.accounts[a as int].equity_maint());
                        let eq_b = exact(r2.0.accounts[b as int].equity_maint());
                        match r2.0.apply_trade(r2.1, a as int, b as int, price, size, exec_price, eq_a, eq_b) {
                            Err(e) => Err(e),
                            Ok(t) => {
                                if !t.0.trade_margin_ok(a as int, price, t.2) {
                                    Err(RiskError::Undercollateralized)
                                } else if !t.0.trade_margin_ok(b as int, price, t.3) {
                                    Err(RiskError::Undercollateralized)
                                } else {
                                    match t.0.finish_touched(t.1) {
                                        Err(e) => Err(e),
                                        Ok(s3) => s3.end_instruction(t.1),
                                    }
                                }
                            },
                        }
                    },
                },
            }
        }
    }
}

/// One side's open interest, less two positions and plus two others.
pub open spec fn oi_side_after(oi: int, out_a: int, out_b: int, in_a: int, in_b: int) -> Result<u128, RiskError> {
    match u128_or(oi - out_a, RiskError::CorruptState) {
        Err(e) => Err(e),
        Ok(x) => match u128_or(x - out_b, RiskError::CorruptState) {
            Err(e) => Err(e),
            Ok(y) => match u128_or(y + in_a, RiskError::Overflow) {
                Err(e) => Err(e),
                Ok(z) => u128_or(z + in_b, RiskError::Overflow),
            },
        },
    }
}

/// The exact wide integer of a value.
pub open spec fn exact(v: int) -> I256 {
    choose|w: I256| w.wf() && w@ == v
}

/// An exact wide integer is the only one of its value.
pub proof fn exact_is_unique(w: I256)
    requires
        w.wf(),
    ensures
        w == exact(w@),
{
    let x = exact(w@);
    assert(x.wf() && x@ == w@);
    assert(x.neg == w.neg);
    assert(x.mag@ == w.mag@);
}

/// `u128 * i128` as `i128`, where the magnitude is at most `i128::MAX`.
pub fn checked_u128_mul_i128(a: u128, b: i128) -> (r: Result<i128, RiskError>)
    ensures
        r == (if b == i128::MIN && a != 0 {
                Err::<i128, RiskError>(RiskError::Overflow)
            } else {
                symmetric_i128_or(a * b, RiskError::Overflow)
        }),
{
    if a == 0 || b == 0 {
        assert(a * b == 0) by (nonlinear_arith)
            requires
                a == 0 || b == 0,
            ;
        return Ok(0);
    }
    if b == i128::MIN {
        return Err(RiskError::Overflow);
    }
    let limit: u128 = 0x7fff_ffff_ffff_ffff_ffff_ffff_ffff_ffff;
    let p: U256 = widening_mul(a, abs_i128(b));
    proof {
        if b < 0 {
            assert(a * b == -(a * abs_of(b as int))) by (nonlinear_arith)
                requires
                    abs_of(b as int) == -b,
                ;
        }
    }
    if p.hi == 0 && p.lo <= limit {
        if b < 0 {
            Ok(-(p.lo as i128))
        } else {
            Ok(p.lo as i128)
        }
    } else {
        Err(RiskError::Overflow)
    }
}

/// The floor of a negative quotient, from the quotient of the magnitudes.
proof fn lemma_negative_trade(p: int, d: int)
    requires
        d > 0,
        p >= 0,
    ensures
        (-p) / d == -ceil_div(p, d),
{
    vstd::arithmetic::div_mod::lemma_fundamental_div_mod(p, d);
    let q = p / d;
    let m = p % d;
    assert(d * q == q * d) by (nonlinear_arith);
    if m == 0 {
        assert(-p == (-q) * d) by (nonlinear_arith)
            requires
                p == q * d,
            ;
        vstd::arithmetic::div_mod::lemma_fundamental_div_mod_converse(-p, d, -q, 0);
    } else {
        assert(-p == (-q - 1) * d + (d - m)) by (nonlinear_arith)
            requires
                p == q * d + m,
            ;
        vstd::arithmetic::div_mod::lemma_fundamental_div_mod_converse(-p, d, -q - 1, d - m);
    }
}

/// The PnL of a trade against a price difference.
pub fn compute_trade_pnl(size_q: i128, price_diff: i128) -> (r: Result<i128, RiskError>)
    ensures
        r == symmetric_i128_or(trade_pnl_of(size_q as int, price_diff as int), RiskError::Overflow),
{
    let negative: bool = (size_q < 0) != (price_diff < 0);
    let limit: u128 = 0x7fff_ffff_ffff_ffff_ffff_ffff_ffff_ffff;
    let x: u128 = abs_i128(size_q);
    let y: u128 = abs_i128(price_diff);
    let (q, m): (U256, U256) = mul_div_floor_u256_with_rem(x, y, POS_SCALE);
    proof {
        let p = x * y;
        assert(p >= 0) by (nonlinear_arith)
            requires
                x >= 0,
                y >= 0,
                p == x * y,
            ;
        if negative {
            assert(size_q * price_diff == -p) by (nonlinear_arith)
                requires
                    p == x * y,
                    (size_q < 0 && price_diff >= 0 && x == -size_q && y == price_diff) || (size_q >= 0
                            && price_diff < 0 && x == size_q && y == -price_diff),
                ;
            lemma_negative_trade(p, POS_SCALE as int);
        } else {
            assert(size_q * price_diff == p) by (nonlinear_arith)
                requires
                    p == x * y,
                    (size_q < 0 && price_diff < 0 && x == -size_q && y == -price_diff) || (size_q >= 0
                            && price_diff >= 0 && x == size_q && y == price_diff),
                ;
        }
    }
    let mag: U256 = if negative && !m.is_zero() {
        q.checked_add(&U256::from_u128(1)).ok_or(RiskError::Overflow)?
    } else {
        q
    };
    if mag.hi != 0 || mag.lo > limit {
        return Err(RiskError::Overflow);
    }
    if negative {
        Ok(-(mag.lo as i128))
    } else {
        Ok(mag.lo as i128)
    }
}

impl RiskEngine {
    fn oi_side_after(oi: u128, out_a: u128, out_b: u128, in_a: u128, in_b: u128) -> (r: Result<u128, RiskError>)
        ensures
            r == oi_side_after(oi as int, out_a as int, out_b as int, in_a as int, in_b as int),
    {
        let x: u128 = oi.checked_sub(out_a).ok_or(RiskError::CorruptState)?;
        let y: u128 = x.checked_sub(out_b).ok_or(RiskError::CorruptState)?;
        let z: u128 = y.checked_add(in_a).ok_or(RiskError::Overflow)?;
        let w: u128 = z.checked_add(in_b).ok_or(RiskError::Overflow)?;
        Ok(w)
    }

    fn oi_long_component(pos: i128) -> (r: u128)
        ensures
            r == pos_of(pos as int),
    {
        if pos > 0 {
            pos as u128
        } else {
            0
        }
    }

    fn oi_short_component(pos: i128) -> (r: u128)
        ensures
            r == pos_of(-(pos as int)),
    {
        if pos < 0 {
            abs_i128(pos)
        } else {
            0
        }
    }

    /// Open interest of both sides once two positions change.
    fn bilateral_oi_after(
        &self,
        old_a: i128,
        new_a: i128,
        old_b: i128,
        new_b: i128,
    ) -> (r: Result<(u128, u128), RiskError>)
        ensures
            r == self@.oi_after(old_a as int, new_a as int, old_b as int, new_b as int),
    {
        let long: u128 = RiskEngine::oi_side_after(
            self.oi_eff_long_q,
            RiskEngine::oi_long_component(old_a),
            RiskEngine::oi_long_component(old_b),
            RiskEngine::oi_long_component(new_a),
            RiskEngine::oi_long_component(new_b),
        )?;
        let short: u128 = RiskEngine::oi_side_after(
            self.oi_eff_short_q,
            RiskEngine::oi_short_component(old_a),
            RiskEngine::oi_short_component(old_b),
            RiskEngine::oi_short_component(new_a),
            RiskEngine::oi_short_component(new_b),
        )?;
        Ok((long, short))
    }

    /// Check margin after a trade, for one account.
    fn enforce_one_side_margin(&self, idx: usize, oracle_price: u64, leg: &TradeLeg) -> (r: Result<(), RiskError>)
        requires
            self.wf(),
            idx < MAX_ACCOUNTS,
            price_ok(oracle_price),
            leg.equity_pre.wf(),
            abs_of(leg.equity_pre@) <= 0x4_0000_0000_0000_0000_0000_0000_0000_0000,
            abs_of(leg.old_q as int) <= 100_000_000_000_000_000_000_000_000_000,
        ensures
            r == (if self@.trade_margin_ok(idx as int, oracle_price, *leg) {
                    Ok::<(), RiskError>(())
                } else {
                    Err::<(), RiskError>(RiskError::Undercollateralized)
            }),
    {
        let account: &Account = &self.accounts[idx];
        let old_q: i128 = leg.old_q;
        let new_q: i128 = leg.new_q;
        proof {
            lemma_effective_pos_bound(self@, idx as int);
            lemma_notional_bound(self@.effective_pos(idx as int), oracle_price as int);
            lemma_notional_bound(old_q as int, oracle_price as int);
        }
        if new_q != 0 && (abs_i128(new_q) > abs_i128(old_q) || (old_q > 0 && new_q < 0) || (old_q < 0 && new_q > 0)
                || old_q == 0) {
            if self.is_above_initial_margin_trade_open(account, idx, oracle_price, leg.trade_pnl) {
                return Ok(());
            } else {
                return Err(RiskError::Undercollateralized);
            }
        }
        if new_q != 0 && self.is_above_maintenance_margin(account, idx, oracle_price) {
            return Ok(());
        }
        let post_raw: I256 = self.account_equity_maint_raw_wide(account);
        let post: I256 = post_raw.checked_add(&I256::from_u128(leg.fee_impact)).ok_or(RiskError::Undercollateralized)?;
        let zero: I256 = I256::zero();
        let shortfall_post: I256 = if post.is_negative() {
            post
        } else {
            zero
        };
        let shortfall_pre: I256 = if leg.equity_pre.is_negative() {
            leg.equity_pre
        } else {
            zero
        };
        let not_worse: bool = !shortfall_post.is_less_than(&shortfall_pre);
        if new_q == 0 {
            if not_worse {
                return Ok(());
            } else {
                return Err(RiskError::Undercollateralized);
            }
        }
        let reducing: bool = ((old_q > 0 && new_q > 0) || (old_q < 0 && new_q < 0)) && abs_i128(new_q) < abs_i128(old_q);
        if !reducing {
            return Err(RiskError::Undercollateralized);
        }
        let not: u128 = self.notional(idx, oracle_price);
        proof {
            lemma_muldiv_bound(not as int, not as int, self.params.maintenance_margin_bps as int, 10_000, 10_000);
        }
        let mm_post: u128 = max_u128(
            mul_div_floor_u128(not, self.params.maintenance_margin_bps as u128, 10_000),
            self.params.min_nonzero_mm_req,
        );
        let mm_pre: u128 = self.mm_req_for(old_q, oracle_price);
        let buffer_post: I256 = post.checked_sub(&I256::from_u128(mm_post)).ok_or(RiskError::Undercollateralized)?;
        let buffer_pre: I256 = leg.equity_pre.checked_sub(&I256::from_u128(mm_pre)).ok_or(RiskError::Undercollateralized)?;
        if buffer_pre.is_less_than(&buffer_post) && not_worse {
            Ok(())
        } else {
            Err(RiskError::Undercollateralized)
        }
    }

    /// Check margin after a trade, for both accounts.
    fn enforce_post_trade_margin(
        &self,
        a: usize,
        b: usize,
        oracle_price: u64,
        leg_a: &TradeLeg,
        leg_b: &TradeLeg,
    ) -> (r: Result<(), RiskError>)
        requires
            self.wf(),
            a < MAX_ACCOUNTS,
            b < MAX_ACCOUNTS,
            price_ok(oracle_price),
            leg_a.equity_pre.wf(),
            leg_b.equity_pre.wf(),
            abs_of(leg_a.equity_pre@) <= 0x4_0000_0000_0000_0000_0000_0000_0000_0000,
            abs_of(leg_b.equity_pre@) <= 0x4_0000_0000_0000_0000_0000_0000_0000_0000,
            abs_of(leg_a.old_q as int) <= 100_000_000_000_000_000_000_000_000_000,
            abs_of(leg_b.old_q as int) <= 100_000_000_000_000_000_000_000_000_000,
        ensures
            r == (if self@.trade_margin_ok(a as int, oracle_price, *leg_a) && self@.trade_margin_ok(
                    b as int,
                    oracle_price,
                    *leg_b,
                ) {
                    Ok::<(), RiskError>(())
                } else {
                    Err::<(), RiskError>(RiskError::Undercollateralized)
            }),
    {
        self.enforce_one_side_margin(a, oracle_price, leg_a)?;
        self.enforce_one_side_margin(b, oracle_price, leg_b)?;
        Ok(())
    }

    fn position_ok(q: i128, price: u64) -> (r: bool)
        requires
            abs_of(q as int) <= 1_000_000_000_000_000_000_000_000_000_000,
            price_ok(price),
        ensures
            r == EngineState::position_ok(q as int, price as int),
    {
        if abs_i128(q) > MAX_POSITION_ABS_Q {
            return false;
        }
        proof {
            lemma_notional_bound(q as int, price as int);
        }
        mul_div_floor_u128(abs_i128(q), price as u128, POS_SCALE) <= MAX_ACCOUNT_NOTIONAL
    }

    fn book_trade_pnl(&mut self, idx: usize, pnl: i128, ctx: &mut InstructionContext) -> (r: Result<(), RiskError>)
        requires
            old(self).wf(),
            old(ctx).wf(),
            idx < MAX_ACCOUNTS,
        ensures
            final(self).wf(),
            final(ctx).wf(),
            final(ctx)@.touched == old(ctx)@.touched,
            match r {
                Ok(_) => old(self)@.book_trade_pnl(idx as int, pnl as int, old(ctx)@) == Ok::<
                (EngineState, CtxState),
                RiskError,
                >((final(self)@, final(ctx)@)),
                Err(e) => old(self)@.book_trade_pnl(idx as int, pnl as int, old(ctx)@) == Err::<
                (EngineState, CtxState),
                RiskError,
                >(e),
            },
    {
        let p: i128 = self.accounts[idx].pnl.checked_add(pnl).ok_or(RiskError::Overflow)?;
        let mode: ReserveMode = ReserveMode::UseAdmissionPair(ctx.admit_h_min_shared, ctx.admit_h_max_shared);
        self.set_pnl_with_reserve(idx, p, mode, ctx)
    }

    fn apply_trade(
        &mut self,
        ctx: &mut InstructionContext,
        a: usize,
        b: usize,
        oracle_price: u64,
        size_q: i128,
        exec_price: u64,
        eq_a: I256,
        eq_b: I256,
    ) -> (r: Result<(TradeLeg, TradeLeg), RiskError>)
        requires
            old(self).wf(),
            old(ctx).wf(),
            a < MAX_ACCOUNTS,
            b < MAX_ACCOUNTS,
            price_ok(oracle_price),
            price_ok(exec_price),
            0 < size_q <= MAX_TRADE_SIZE_Q,
        ensures
            final(self).wf(),
            final(ctx).wf(),
            final(ctx)@.touched == old(ctx)@.touched,
            match r {
                Ok(legs) => old(self)@.apply_trade(
                    old(ctx)@,
                    a as int,
                    b as int,
                    oracle_price,
                    size_q,
                    exec_price,
                    eq_a,
                    eq_b,
                ) == Ok::<(EngineState, CtxState, TradeLeg, TradeLeg), RiskError>(
                    (final(self)@, final(ctx)@, legs.0, legs.1),
                ) && legs.0.equity_pre == eq_a && legs.1.equity_pre == eq_b && abs_of(legs.0.old_q as int)
                    <= 100_000_000_000_000_000_000_000_000_000 && abs_of(legs.1.old_q as int)
                    <= 100_000_000_000_000_000_000_000_000_000,
                Err(e) => old(self)@.apply_trade(
                    old(ctx)@,
                    a as int,
                    b as int,
                    oracle_price,
                    size_q,
                    exec_price,
                    eq_a,
                    eq_b,
                ) == Err::<(EngineState, CtxState, TradeLeg, TradeLeg), RiskError>(e),
            },
    {
        proof {
            reveal(EngineState::apply_trade);
            lemma_effective_pos_bound(self@, a as int);
            lemma_effective_pos_bound(self@, b as int);
            lemma_notional_bound(size_q as int, exec_price as int);
            lemma_muldiv_bound(
                notional_of(size_q as int, exec_price as int),
                notional_of(size_q as int, exec_price as int),
                self.params.trading_fee_bps as int,
                10_000,
                10_000,
            );
        }
        let old_a: i128 = self.effective_pos_q(a);
        let old_b: i128 = self.effective_pos_q(b);
        let new_a: i128 = old_a + size_q;
        let new_b: i128 = old_b - size_q;
        if !RiskEngine::position_ok(new_a, oracle_price) {
            return Err(RiskError::Overflow);
        }
        if !RiskEngine::position_ok(new_b, oracle_price) {
            return Err(RiskError::Overflow);
        }
        self.maybe_finalize_ready_reset_sides();
        let (oi_long, oi_short): (u128, u128) = self.bilateral_oi_after(old_a, new_a, old_b, new_b)?;
        if oi_long > MAX_OI_SIDE_Q || oi_short > MAX_OI_SIDE_Q {
            return Err(RiskError::Overflow);
        }
        if self.side_mode_long != SideMode::Normal && oi_long > self.oi_eff_long_q {
            return Err(RiskError::SideBlocked);
        }
        if self.side_mode_short != SideMode::Normal && oi_short > self.oi_eff_short_q {
            return Err(RiskError::SideBlocked);
        }
        let price_diff: i128 = oracle_price as i128 - exec_price as i128;
        let pnl: i128 = compute_trade_pnl(size_q, price_diff)?;
        self.book_trade_pnl(a, pnl, ctx)?;
        self.book_trade_pnl(b, -pnl, ctx)?;
        self.attach_effective_position(a, new_a)?;
        self.attach_effective_position(b, new_b)?;
        self.oi_eff_long_q = oi_long;
        self.oi_eff_short_q = oi_short;
        self.settle_losses(a)?;
        self.settle_losses(b)?;
        let trade_notional: u128 = mul_div_floor_u128(size_q as u128, exec_price as u128, POS_SCALE);
        proof {
            lemma_muldiv_bound(trade_notional as int, trade_notional as int, self.params.trading_fee_bps as int, 10_000, 10_000);
        }
        let fee: u128 = mul_div_ceil_u128(trade_notional, self.params.trading_fee_bps as u128, 10_000);
        let split_a: FeeSplit = self.charge_fee_to_insurance(a, fee)?;
        let split_b: FeeSplit = self.charge_fee_to_insurance(b, fee)?;
        if new_a == 0 && self.accounts[a].pnl < 0 {
            return Err(RiskError::Undercollateralized);
        }
        if new_b == 0 && self.accounts[b].pnl < 0 {
            return Err(RiskError::Undercollateralized);
        }
        Ok(
            (
                TradeLeg { old_q: old_a, new_q: new_a, equity_pre: eq_a, fee_impact: split_a.impact, trade_pnl: pnl },
                TradeLeg { old_q: old_b, new_q: new_b, equity_pre: eq_b, fee_impact: split_b.impact, trade_pnl: -pnl },
            ),
        )
    }

    /// Trade between two accounts: `a` buys `size_q` from `b`.
    pub fn execute_trade_not_atomic(
        &mut self,
        a: u16,
        b: u16,
        oracle_price: u64,
        now_slot: u64,
        size_q: i128,
        exec_price: u64,
        funding_rate_e9: i128,
        admit_h_min: u64,
        admit_h_max: u64,
    ) -> (r: Result<(), RiskError>)
        requires
            old(self).wf(),
        ensures
            final(self).wf(),
            agrees_unit(
                old(self)@.execute_trade(
                    a,
                    b,
                    oracle_price,
                    now_slot,
                    size_q,
                    exec_price,
                    funding_rate_e9,
                    admit_h_min,
                    admit_h_max,
                ),
                r,
                final(self)@,
            ),
            r is Ok ==> final(self)@.conserved() && final(self)@.oi_balanced(),
            old(self)@.trade_refused(
                a,
                b,
                oracle_price,
                now_slot,
                size_q,
                exec_price,
                funding_rate_e9,
                admit_h_min,
                admit_h_max,
            ) ==> r is Err && final(self)@ == old(self)@,
    {
        proof {
            reveal(EngineState::execute_trade);
        }
        RiskEngine::validate_admission_pair(admit_h_min, admit_h_max, &self.params)?;
        if oracle_price == 0 || oracle_price > MAX_ORACLE_PRICE {
            return Err(RiskError::Overflow);
        }
        if exec_price == 0 || exec_price > MAX_ORACLE_PRICE {
            return Err(RiskError::Overflow);
        }
        if size_q <= 0 {
            return Err(RiskError::Overflow);
        }
        if size_q as u128 > MAX_TRADE_SIZE_Q {
            return Err(RiskError::Overflow);
        }
        proof {
            lemma_notional_bound(size_q as int, exec_price as int);
        }
        let notional: u128 = mul_div_floor_u128(size_q as u128, exec_price as u128, POS_SCALE);
        if notional > MAX_ACCOUNT_NOTIONAL {
            return Err(RiskError::Overflow);
        }
        if !self.is_used(a as usize) || !self.is_used(b as usize) {
            return Err(RiskError::AccountNotFound);
        }
        if a == b {
            return Err(RiskError::Overflow);
        }
        if self.market_mode != MarketMode::Live {
            return Err(RiskError::Unauthorized);
        }
        let ia: usize = a as usize;
        let ib: usize = b as usize;
        let mut ctx: InstructionContext = InstructionContext::new_with_admission(admit_h_min, admit_h_max);
        self.start_live(ia, oracle_price, now_slot, funding_rate_e9, &mut ctx)?;
        self.touch_account_live_local(ib, &mut ctx)?;
        let eq_a: I256 = self.account_equity_maint_raw_wide(&self.accounts[ia]);
        let eq_b: I256 = self.account_equity_maint_raw_wide(&self.accounts[ib]);
        proof {
            exact_is_unique(eq_a);
            exact_is_unique(eq_b);
        }
        let legs: (TradeLeg, TradeLeg) = self.apply_trade(&mut ctx, ia, ib, oracle_price, size_q, exec_price, eq_a, eq_b)?;
        self.enforce_post_trade_margin(ia, ib, oracle_price, &legs.0, &legs.1)?;
        self.finalize_touched_accounts_post_live(&ctx)?;
        self.end_instruction(&mut ctx)
    }
}

} // verus!
