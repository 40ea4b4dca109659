//! Haircut, equity and margin.

use vstd::prelude::*;
use crate::constants::{MAX_ACCOUNTS, MAX_ORACLE_PRICE, POS_SCALE};
use crate::model::EngineState;
use crate::types::{Account, RiskEngine};
use crate::wide_math::{
    abs_i128, abs_of, fee_debt_u128_checked, i128_clamp_pos, lemma_muldiv_bound, max_of, max_u128, min_of,
    min_u128, mul_div_floor_u128, mul_div_floor_u256_with_rem, muldiv, neg_of, pos_of, I256, U256,
};

verus! {

/// An equity as the engine stores it: one that does not fit is taken as the
/// lowest usable value, which fails every check.
pub open spec fn as_stored_equity(v: int) -> int {
    if i128::MIN <= v <= i128::MAX {
        v
    } else {
        i128::MIN + 1
    }
}

/// The quote value of a base quantity at a price, rounded down.
pub open spec fn notional_of(q: int, price: int) -> int {
    muldiv(abs_of(q), price, POS_SCALE as int)
}

/// A rate in basis points of an amount, rounded down.
pub open spec fn bps_of(amount: int, bps: int) -> int {
    muldiv(amount, bps, 10_000)
}

impl Account {
    /// Fees that the account owes.
    pub open spec fn fee_debt(self) -> int {
        pos_of(-(self.fee_credits.v as int))
    }

    /// Equity for maintenance: capital and PnL less fee debt.
    pub open spec fn equity_maint(self) -> int {
        self.capital.v + self.pnl - self.fee_debt()
    }
}

impl EngineState {
    /// The share of matured PnL that the residual covers, as numerator and
    /// denominator.
    pub open spec fn haircut(self) -> (int, int) {
        if self.pnl_matured_pos_tot == 0 {
            (1, 1)
        } else {
            (
                min_of(self.residual(), self.pnl_matured_pos_tot as int),
                self.pnl_matured_pos_tot as int,
            )
        }
    }

    /// The matured PnL of account `i` after the haircut.
    pub open spec fn effective_matured(self, i: int) -> int {
        muldiv(self.released(i), self.haircut().0, self.haircut().1)
    }

    /// Equity for initial margin and withdrawal: only haircut matured PnL counts as
    /// profit.
    pub open spec fn equity_init(self, a: Account, i: int) -> int {
        a.capital.v + neg_of(a.pnl as int) + self.effective_matured(i) - a.fee_debt()
    }

    /// Equity for opening a trade: all positive PnL counts under the haircut, but
    /// for the gain of the trade itself.
    pub open spec fn equity_trade_open(self, a: Account, trade_pnl: int) -> int {
        let gain = pos_of(trade_pnl);
        let pos = pos_of(a.pnl as int);
        let pos_open = pos_of(pos - gain);
        let pnl_open = if a.pnl - gain >= i128::MIN {
            a.pnl - gain
        } else {
            i128::MIN + 1
        };
        let tot_open = self.pnl_pos_tot - pos + pos_open;
        let profit = if tot_open == 0 {
            pos_open
        } else {
            muldiv(pos_open, min_of(self.residual(), tot_open), tot_open)
        };
        if self.pnl_pos_tot < pos {
            i128::MIN + 1
        } else {
            as_stored_equity(a.capital.v + neg_of(pnl_open) + profit - a.fee_debt())
        }
    }

    /// The quote value of account `i`'s position.
    pub open spec fn notional_at(self, i: int, price: int) -> int {
        notional_of(self.effective_pos(i), price)
    }

    /// Maintenance margin for the position `q`.
    pub open spec fn mm_for(self, q: int, price: int) -> int {
        if q == 0 {
            0
        } else {
            max_of(
                bps_of(notional_of(q, price), self.params.maintenance_margin_bps as int),
                self.params.min_nonzero_mm_req as int,
            )
        }
    }

    /// Initial margin for the position `q`.
    pub open spec fn im_for(self, q: int, price: int) -> int {
        if q == 0 {
            0
        } else {
            max_of(
                bps_of(notional_of(q, price), self.params.initial_margin_bps as int),
                self.params.min_nonzero_im_req as int,
            )
        }
    }

    /// Account `i`, with its fields as in `a`, is above maintenance margin.
    pub open spec fn above_maint(self, a: Account, i: int, price: int) -> bool {
        pos_of(as_stored_equity(a.equity_maint())) > min_of(
            self.mm_for(self.effective_pos(i), price),
            i128::MAX as int,
        )
    }

    /// Account `i`, with its fields as in `a`, meets initial margin.
    pub open spec fn above_init(self, a: Account, i: int, price: int) -> bool {
        as_stored_equity(self.equity_init(a, i)) >= min_of(
            self.im_for(self.effective_pos(i), price),
            i128::MAX as int,
        )
    }

    /// Account `i` meets initial margin for a trade that gives it `trade_pnl`.
    pub open spec fn above_init_trade(self, a: Account, i: int, price: int, trade_pnl: int) -> bool {
        self.equity_trade_open(a, trade_pnl) >= min_of(
            self.im_for(self.effective_pos(i), price),
            i128::MAX as int,
        )
    }

    /// The most of `cap` that a flat account `i` can convert at the haircut
    /// `num / den` without its maintenance equity going below zero.
    pub open spec fn safe_conversion(self, i: int, cap: int, num: int, den: int) -> int {
        let e = as_stored_equity(self.accounts[i].equity_maint());
        if cap == 0 || e <= 0 {
            0
        } else if den == 0 || num == den {
            cap
        } else {
            min_of(cap, muldiv(e, den, den - num))
        }
    }
}

/// A haircut does not grow an amount.
pub proof fn lemma_haircut_shrinks(x: int, num: int, den: int)
    requires
        x >= 0,
        0 <= num <= den,
        den > 0,
    ensures
        0 <= muldiv(x, num, den) <= x,
{
    assert(x * num <= x * den) by (nonlinear_arith)
        requires
            x >= 0,
            num <= den,
        ;
    assert(0 <= x * num) by (nonlinear_arith)
        requires
            x >= 0,
            num >= 0,
        ;
    vstd::arithmetic::div_mod::lemma_div_is_ordered(0, x * num, den);
    vstd::arithmetic::div_mod::lemma_div_is_ordered(x * num, x * den, den);
    vstd::arithmetic::div_mod::lemma_div_multiples_vanish(x, den);
    assert(x * den == den * x) by (nonlinear_arith);
    assert(0int / den == 0) by (nonlinear_arith)
        requires
            den > 0,
        ;
}

/// At oracle prices, the value of a position fits and stays far below the
/// limits of the margin arithmetic.
pub proof fn lemma_notional_bound(q: int, price: int)
    requires
        abs_of(q) <= 100_000_000_000_000_000_000_000_000_000,
        0 <= price <= MAX_ORACLE_PRICE,
    ensures
        0 <= notional_of(q, price) <= 100_000_000_000_000_000_000_000_000_000_000_000,
{
    lemma_muldiv_bound(
        abs_of(q),
        100_000_000_000_000_000_000_000_000_000,
        price,
        MAX_ORACLE_PRICE as int,
        POS_SCALE as int,
    );
}

impl RiskEngine {
    /// The share of matured PnL that the residual covers.
    pub fn haircut_ratio(&self) -> (r: (u128, u128))
        ensures
            r.0 == self@.haircut().0,
            r.1 == self@.haircut().1,
    {
        if self.pnl_matured_pos_tot == 0 {
            return (1, 1);
        }
        let residual: u128 = self.residual();
        (min_u128(residual, self.pnl_matured_pos_tot), self.pnl_matured_pos_tot)
    }

    /// What the vault holds beyond all capital and the insurance fund.
    pub(crate) fn residual(&self) -> (r: u128)
        ensures
            r == self@.residual(),
    {
        match self.c_tot.v.checked_add(self.insurance_fund.balance.v) {
            Some(s) => {
                if self.vault.v >= s {
                    self.vault.v - s
                } else {
                    0
                }
            },
            None => 0,
        }
    }

    /// The matured PnL of an account after the haircut.
    pub fn effective_matured_pnl(&self, idx: usize) -> (r: u128)
        requires
            self.wf(),
            idx < MAX_ACCOUNTS,
        ensures
            r == self@.effective_matured(idx as int),
    {
        let released: u128 = self.released_pos(idx);
        let (h_num, h_den): (u128, u128) = self.haircut_ratio();
        proof {
            lemma_haircut_shrinks(released as int, h_num as int, h_den as int);
        }
        mul_div_floor_u128(released, h_num, h_den)
    }

    /// Maintenance equity as it is stored.
    pub fn account_equity_maint_raw(&self, account: &Account) -> (r: i128)
        ensures
            r == as_stored_equity(account.equity_maint()),
    {
        match self.account_equity_maint_raw_wide(account).try_into_i128() {
            Some(v) => v,
            None => i128::MIN + 1,
        }
    }

    /// Maintenance equity in exact arithmetic.
    pub fn account_equity_maint_raw_wide(&self, account: &Account) -> (r: I256)
        ensures
            r.wf(),
            r@ == account.equity_maint(),
    {
        RiskEngine::exact_sum(account.capital.v, account.pnl, 0, fee_debt_u128_checked(account.fee_credits.v))
    }

    /// `a + b + c - d`.
    fn exact_sum(a: u128, b: i128, c: u128, d: u128) -> (r: I256)
        ensures
            r.wf(),
            r@ == a + b + c - d,
    {
        let s1: I256 = match I256::from_u128(a).checked_add(&I256::from_i128(b)) {
            Some(v) => v,
            None => I256::zero(),
        };
        let s2: I256 = match s1.checked_add(&I256::from_u128(c)) {
            Some(v) => v,
            None => I256::zero(),
        };
        match s2.checked_sub(&I256::from_u128(d)) {
            Some(v) => v,
            None => I256::zero(),
        }
    }

    /// Maintenance equity, not below zero.
    pub fn account_equity_net(&self, account: &Account, _oracle_price: u64) -> (r: i128)
        ensures
            r == pos_of(as_stored_equity(account.equity_maint())),
    {
        let raw: i128 = self.account_equity_maint_raw(account);
        if raw < 0 {
            0
        } else {
            raw
        }
    }

    /// Equity for initial margin.
    pub fn account_equity_init_raw(&self, account: &Account, idx: usize) -> (r: i128)
        requires
            self.wf(),
            idx < MAX_ACCOUNTS,
        ensures
            r == as_stored_equity(self@.equity_init(*account, idx as int)),
    {
        let neg_pnl: i128 = if account.pnl < 0 {
            account.pnl
        } else {
            0
        };
        let sum: I256 = RiskEngine::exact_sum(
            account.capital.v,
            neg_pnl,
            self.effective_matured_pnl(idx),
            fee_debt_u128_checked(account.fee_credits.v),
        );
        match sum.try_into_i128() {
            Some(v) => v,
            None => i128::MIN + 1,
        }
    }

    /// Equity for initial margin, not below zero.
    pub fn account_equity_init_net(&self, account: &Account, idx: usize) -> (r: i128)
        requires
            self.wf(),
            idx < MAX_ACCOUNTS,
        ensures
            r == pos_of(as_stored_equity(self@.equity_init(*account, idx as int))),
    {
        let raw: i128 = self.account_equity_init_raw(account, idx);
        if raw < 0 {
            0
        } else {
            raw
        }
    }

    /// Equity for a withdrawal.
    pub fn account_equity_withdraw_raw(&self, account: &Account, idx: usize) -> (r: i128)
        requires
            self.wf(),
            idx < MAX_ACCOUNTS,
        ensures
            r == as_stored_equity(self@.equity_init(*account, idx as int)),
    {
        self.account_equity_init_raw(account, idx)
    }

    /// The most that a flat account can convert at a haircut without its
    /// maintenance equity going below zero.
    pub fn max_safe_flat_conversion_released(&self, idx: usize, x_cap: u128, h_num: u128, h_den: u128) -> (r: u128)
        requires
            self.wf(),
            idx < MAX_ACCOUNTS,
            h_den == 0 || h_num <= h_den,
        ensures
            r == self@.safe_conversion(idx as int, x_cap as int, h_num as int, h_den as int),
    {
        if x_cap == 0 {
            return 0;
        }
        let e_before: i128 = self.account_equity_maint_raw(&self.accounts[idx]);
        if e_before <= 0 {
            return 0;
        }
        if h_den == 0 || h_num == h_den {
            return x_cap;
        }
        let (q, _m): (U256, U256) = mul_div_floor_u256_with_rem(e_before as u128, h_den, h_den - h_num);
        match q.try_into_u128() {
            Some(safe) => min_u128(x_cap, safe),
            None => x_cap,
        }
    }

    /// The quote value of an account's position.
    pub fn notional(&self, idx: usize, oracle_price: u64) -> (r: u128)
        requires
            self.wf(),
            idx < MAX_ACCOUNTS,
            self@.notional_at(idx as int, oracle_price as int) <= u128::MAX,
        ensures
            r == self@.notional_at(idx as int, oracle_price as int),
    {
        let eff: i128 = self.effective_pos_q(idx);
        mul_div_floor_u128(abs_i128(eff), oracle_price as u128, POS_SCALE)
    }

    /// Maintenance margin for a position.
    pub(crate) fn mm_req_for(&self, q: i128, oracle_price: u64) -> (r: u128)
        requires
            self.wf(),
            notional_of(q as int, oracle_price as int) <= u128::MAX,
        ensures
            r == self@.mm_for(q as int, oracle_price as int),
    {
        if q == 0 {
            return 0;
        }
        let not: u128 = mul_div_floor_u128(abs_i128(q), oracle_price as u128, POS_SCALE);
        proof {
            lemma_muldiv_bound(not as int, not as int, self.params.maintenance_margin_bps as int, 10_000, 10_000);
        }
        let proportional: u128 = mul_div_floor_u128(not, self.params.maintenance_margin_bps as u128, 10_000);
        max_u128(proportional, self.params.min_nonzero_mm_req)
    }

    /// Initial margin for a position.
    pub(crate) fn im_req_for(&self, q: i128, oracle_price: u64) -> (r: u128)
        requires
            self.wf(),
            notional_of(q as int, oracle_price as int) <= u128::MAX,
        ensures
            r == self@.im_for(q as int, oracle_price as int),
    {
        if q == 0 {
            return 0;
        }
        let not: u128 = mul_div_floor_u128(abs_i128(q), oracle_price as u128, POS_SCALE);
        proof {
            lemma_muldiv_bound(not as int, not as int, self.params.initial_margin_bps as int, 10_000, 10_000);
        }
        let proportional: u128 = mul_div_floor_u128(not, self.params.initial_margin_bps as u128, 10_000);
        max_u128(proportional, self.params.min_nonzero_im_req)
    }

    fn capped_i128(v: u128) -> (r: i128)
        ensures
            r == min_of(v as int, i128::MAX as int),
    {
        if v > 0x7fff_ffff_ffff_ffff_ffff_ffff_ffff_ffff {
            i128::MAX
        } else {
            v as i128
        }
    }

    /// Whether an account is above maintenance margin.
    pub fn is_above_maintenance_margin(&self, account: &Account, idx: usize, oracle_price: u64) -> (r: bool)
        requires
            self.wf(),
            idx < MAX_ACCOUNTS,
            self@.notional_at(idx as int, oracle_price as int) <= u128::MAX,
        ensures
            r == self@.above_maint(*account, idx as int, oracle_price as int),
    {
        let eq_net: i128 = self.account_equity_net(account, oracle_price);
        let eff: i128 = self.effective_pos_q(idx);
        eq_net > RiskEngine::capped_i128(self.mm_req_for(eff, oracle_price))
    }

    /// Whether an account meets initial margin.
    pub fn is_above_initial_margin(&self, account: &Account, idx: usize, oracle_price: u64) -> (r: bool)
        requires
            self.wf(),
            idx < MAX_ACCOUNTS,
            self@.notional_at(idx as int, oracle_price as int) <= u128::MAX,
        ensures
            r == self@.above_init(*account, idx as int, oracle_price as int),
    {
        let eq: i128 = self.account_equity_init_raw(account, idx);
        let eff: i128 = self.effective_pos_q(idx);
        eq >= RiskEngine::capped_i128(self.im_req_for(eff, oracle_price))
    }

    /// Equity for opening a trade that gives the account `candidate_trade_pnl`.
    pub fn account_equity_trade_open_raw(&self, account: &Account, _idx: usize, candidate_trade_pnl: i128) -> (r: i128)
        ensures
            r == self@.equity_trade_open(*account, candidate_trade_pnl as int),
    {
        let trade_gain: u128 = i128_clamp_pos(candidate_trade_pnl);
        let pos_pnl: u128 = i128_clamp_pos(account.pnl);
        let pos_open: u128 = pos_pnl.saturating_sub(trade_gain);
        let pnl_open: i128 = match account.pnl.checked_sub(trade_gain as i128) {
            Some(v) => v,
            None => i128::MIN + 1,
        };
        if self.pnl_pos_tot < pos_pnl {
            return i128::MIN + 1;
        }
        let tot_open: u128 = self.pnl_pos_tot - pos_pnl + pos_open;
        let profit: u128 = if tot_open == 0 {
            pos_open
        } else {
            let g_num: u128 = min_u128(self.residual(), tot_open);
            proof {
                lemma_haircut_shrinks(pos_open as int, g_num as int, tot_open as int);
            }
            mul_div_floor_u128(pos_open, g_num, tot_open)
        };
        let neg_pnl: i128 = if pnl_open < 0 {
            pnl_open
        } else {
            0
        };
        let sum: I256 = RiskEngine::exact_sum(
            account.capital.v,
            neg_pnl,
            profit,
            fee_debt_u128_checked(account.fee_credits.v),
        );
        match sum.try_into_i128() {
            Some(v) => v,
            None => i128::MIN + 1,
        }
    }

    /// Whether an account meets initial margin for a trade.
    pub fn is_above_initial_margin_trade_open(
        &self,
        account: &Account,
        idx: usize,
        oracle_price: u64,
        candidate_trade_pnl: i128,
    ) -> (r: bool)
        requires
            self.wf(),
            idx < MAX_ACCOUNTS,
            self@.notional_at(idx as int, oracle_price as int) <= u128::MAX,
        ensures
            r == self@.above_init_trade(
                *account,
                idx as int,
                oracle_price as int,
                candidate_trade_pnl as int,
            ),
    {
        let eq: i128 = self.account_equity_trade_open_raw(account, idx, candidate_trade_pnl);
        let eff: i128 = self.effective_pos_q(idx);
        eq >= RiskEngine::capped_i128(self.im_req_for(eff, oracle_price))
    }
}

} // verus!
