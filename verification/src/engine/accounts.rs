//! Operations on one account: claiming it, deposits and withdrawals, conversion
//! of profit, closing and reclaiming, and fees.

use vstd::prelude::*;
use crate::constants::{
    ACCOUNTS_PER_CRANK, GC_CLOSE_BUDGET, MAX_ACCOUNTS, MAX_ORACLE_PRICE, MAX_VAULT_TVL,
};
use crate::context::CtxState;
use crate::engine::equity::{
    as_stored_equity, lemma_haircut_shrinks, lemma_notional_bound, notional_of,
};
use crate::engine::market::admission_ok;
use crate::engine::positions::lemma_effective_pos_bound;
use crate::engine::settlement::FeeSplit;
use crate::int128::{I128, U128};
use crate::model::{agrees, agrees_unit, u128_or, EngineState};
use crate::types::{
    zero_key, Account, InstructionContext, InsuranceFund, MarketMode, RiskEngine, RiskError,
};
use crate::wide_math::{fee_debt_u128_checked, lemma_muldiv_bound, mul_div_floor_u128, muldiv};

verus! {

/// An integer brought into the range of `i128`.
pub open spec fn clamp_i128(v: int) -> int {
    if v < i128::MIN {
        i128::MIN as int
    } else if v > i128::MAX {
        i128::MAX as int
    } else {
        v
    }
}

fn saturating_sub_i128(a: i128, b: i128) -> (r: i128)
    ensures
        r == clamp_i128(a - b),
{
    match a.checked_sub(b) {
        Some(v) => v,
        None => if b > 0 {
            i128::MIN
        } else {
            i128::MAX
        },
    }
}

/// A price that the engine takes.
pub open spec fn price_ok(p: u64) -> bool {
    0 < p <= MAX_ORACLE_PRICE
}

/// Number of used marks among the first `n` slots.
pub open spec fn used_among(used: Seq<bool>, n: nat) -> nat
    decreases n,
{
    if n == 0 {
        0
    } else {
        used_among(used, (n - 1) as nat) + if used[n - 1] {
            1nat
        } else {
            0nat
        }
    }
}

impl EngineState {
    /// The common start of a live instruction on account `i`: accrue, then touch.
    pub open spec fn start_live(
        self,
        i: int,
        price: u64,
        now: u64,
        rate: i128,
        h_min: u64,
        h_max: u64,
    ) -> Result<(EngineState, CtxState), RiskError> {
        match self.accrue(now, price, rate) {
            Err(e) => Err(e),
            Ok(s) => s.touch(i, CtxState::fresh(h_min, h_max)),
        }
    }

    /// A live instruction on account `i` is refused before anything changes: for its
    /// arguments, or because the market cannot be accrued.
    pub open spec fn start_refused(self, i: int, price: u64, now: u64, rate: i128, h_min: u64, h_max: u64) -> bool {
        ||| !admission_ok(h_min, h_max, self.params)
        ||| !self.in_use(i)
        ||| !self.is_live()
        ||| self.accrue(now, price, rate) is Err
    }

    /// A deposit is refused before anything changes: at the wrong time, for want of
    /// room, or as a first deposit that is too small.
    pub open spec fn deposit_refused(self, idx: u16, amount: u128, now: u64) -> bool {
        ||| !self.is_live()
        ||| self.current_slot > now
        ||| self.last_market_slot > now
        ||| self.vault.v + amount > MAX_VAULT_TVL
        ||| !self.in_use(idx as int) && (amount < self.params.min_initial_deposit.v || self.materialize_at(idx, now) is Err)
        ||| self.in_use(idx as int) && self.accounts[idx as int].pnl == i128::MIN
    }

    /// A charge on account `idx` is refused before anything changes.
    pub open spec fn charge_refused(self, idx: u16, now: u64) -> bool {
        ||| !self.is_live()
        ||| !self.in_use(idx as int)
        ||| self.current_slot > now
    }

    /// Claim account `idx` for an owner. Only an unclaimed account, and only for
    /// a real owner.
    pub open spec fn set_owner(self, idx: u16, owner: [u8; 32]) -> Result<EngineState, RiskError> {
        let i = idx as int;
        if !self.in_use(i) {
            Err(RiskError::Unauthorized)
        } else if owner@ == zero_key() {
            Err(RiskError::Unauthorized)
        } else if self.accounts[i].owner@ != zero_key() {
            Err(RiskError::Unauthorized)
        } else {
            Ok(self.with_account(i, Account { owner, ..self.accounts[i] }))
        }
    }

    /// Deposit into account `idx`, which is materialized where it is missing.
    #[verifier::opaque]
    pub open spec fn deposit(self, idx: u16, amount: u128, now: u64) -> Result<EngineState, RiskError> {
        let i = idx as int;
        if !self.is_live() {
            Err(RiskError::Unauthorized)
        } else if self.current_slot > now || self.last_market_slot > now {
            Err(RiskError::Overflow)
        } else if self.vault.v + amount > MAX_VAULT_TVL {
            Err(RiskError::Overflow)
        } else {
            match if self.in_use(i) {
                Ok(self)
            } else {
                if amount < self.params.min_initial_deposit.v {
                    Err(RiskError::InsufficientBalance)
                } else {
                    self.materialize_at(idx, now)
                }
            } {
                Err(e) => Err(e),
                Ok(s1) => {
                    if s1.accounts[i].pnl == i128::MIN {
                        Err(RiskError::CorruptState)
                    } else {
                        let s2 = EngineState {
                            current_slot: now,
                            vault: U128 { v: (self.vault.v + amount) as u128 },
                            ..s1
                        };
                        match u128_or(s2.accounts[i].capital.v + amount, RiskError::Overflow) {
                            Err(e) => Err(e),
                            Ok(cap) => match s2.set_capital(i, cap) {
                                Err(e) => Err(e),
                                Ok(s3) => match s3.settle_losses(i) {
                                    Err(e) => Err(e),
                                    Ok(s4) => match if s4.accounts[i].position_basis_q == 0 && s4.accounts[i].pnl >= 0 {
                                        s4.sweep_fee_debt(i)
                                    } else {
                                        Ok(s4)
                                    } {
                                        Err(e) => Err(e),
                                        Ok(s5) => s5.postconditions(),
                                    },
                                },
                            },
                        }
                    }
                },
            }
        }
    }

    /// Account `i` keeps initial margin after `amount` has left it.
    pub open spec fn withdrawal_margin_ok(self, i: int, amount: u128, price: u64) -> bool {
        let q = self.effective_pos(i);
        q == 0 || clamp_i128(as_stored_equity(self.equity_init(self.accounts[i], i)) - (amount as i128))
            >= self.im_for(q, price as int)
    }

    /// Withdraw from account `idx`.
    #[verifier::opaque]
    pub open spec fn withdraw(
        self,
        idx: u16,
        amount: u128,
        price: u64,
        now: u64,
        rate: i128,
        h_min: u64,
        h_max: u64,
    ) -> Result<EngineState, RiskError> {
        let i = idx as int;
        if !admission_ok(h_min, h_max, self.params) {
            Err(RiskError::Overflow)
        } else if !price_ok(price) {
            Err(RiskError::Overflow)
        } else if !self.in_use(i) {
            Err(RiskError::AccountNotFound)
        } else if !self.is_live() {
            Err(RiskError::Unauthorized)
        } else {
            match self.start_live(i, price, now, rate, h_min, h_max) {
                Err(e) => Err(e),
                Ok(r) => match r.0.finish_touched(r.1) {
                    Err(e) => Err(e),
                    Ok(s1) => {
                        let cap = s1.accounts[i].capital.v;
                        if amount > cap {
                            Err(RiskError::InsufficientBalance)
                        } else {
                            let left = (cap - amount) as u128;
                            if left != 0 && left < s1.params.min_initial_deposit.v {
                                Err(RiskError::InsufficientBalance)
                            } else if !s1.withdrawal_margin_ok(i, amount, price) {
                                Err(RiskError::Undercollateralized)
                            } else {
                                match s1.set_capital(i, left) {
                                    Err(e) => Err(e),
                                    Ok(s2) => match u128_or(s2.vault.v - amount, RiskError::CorruptState) {
                                        Err(e) => Err(e),
                                        Ok(v) => {
                                            let s3 = EngineState { vault: U128 { v }, ..s2 };
                                            s3.end_instruction(r.1)
                                        },
                                    },
                                }
                            }
                        }
                    },
                },
            }
        }
    }

    /// Settle account `idx`.
    #[verifier::opaque]
    pub open spec fn settle_account(
        self,
        idx: u16,
        price: u64,
        now: u64,
        rate: i128,
        h_min: u64,
        h_max: u64,
    ) -> Result<EngineState, RiskError> {
        let i = idx as int;
        if !admission_ok(h_min, h_max, self.params) {
            Err(RiskError::Overflow)
        } else if !price_ok(price) {
            Err(RiskError::Overflow)
        } else if !self.in_use(i) {
            Err(RiskError::AccountNotFound)
        } else if !self.is_live() {
            Err(RiskError::Unauthorized)
        } else {
            match self.start_live(i, price, now, rate, h_min, h_max) {
                Err(e) => Err(e),
                Ok(r) => match r.0.finish_touched(r.1) {
                    Err(e) => Err(e),
                    Ok(s1) => s1.end_instruction(r.1),
                },
            }
        }
    }

    /// Account `i` is sound after a conversion: above maintenance margin with a
    /// position, and not below zero without.
    pub open spec fn sound_after_conversion(self, i: int, price: u64) -> bool {
        if self.effective_pos(i) != 0 {
            self.above_maint(self.accounts[i], i, price as int)
        } else {
            as_stored_equity(self.accounts[i].equity_maint()) >= 0
        }
    }

    /// Convert `x` of account `idx`'s matured PnL into capital at the haircut.
    #[verifier::opaque]
    pub open spec fn convert_released(
        self,
        idx: u16,
        x: u128,
        price: u64,
        now: u64,
        rate: i128,
        h_min: u64,
        h_max: u64,
    ) -> Result<EngineState, RiskError> {
        let i = idx as int;
        if !admission_ok(h_min, h_max, self.params) {
            Err(RiskError::Overflow)
        } else if !price_ok(price) {
            Err(RiskError::Overflow)
        } else if !self.in_use(i) {
            Err(RiskError::AccountNotFound)
        } else if !self.is_live() {
            Err(RiskError::Unauthorized)
        } else {
            match self.start_live(i, price, now, rate, h_min, h_max) {
                Err(e) => Err(e),
                Ok(r) => {
                    let s1 = r.0;
                    if !(0 < x <= s1.released(i)) {
                        Err(RiskError::Overflow)
                    } else {
                        let h = s1.haircut();
                        if !(s1.accounts[i].position_basis_q != 0 || x <= s1.safe_conversion(
                                i,
                                x as int,
                                h.0,
                                h.1,
                        )) {
                            Err(RiskError::Undercollateralized)
                        } else {
                            let y = muldiv(x as int, h.0, h.1);
                            match s1.consume_released(i, x) {
                                Err(e) => Err(e),
                                Ok(s2) => match u128_or(s2.accounts[i].capital.v + y, RiskError::Overflow) {
                                    Err(e) => Err(e),
                                    Ok(cap) => match s2.set_capital(i, cap) {
                                        Err(e) => Err(e),
                                        Ok(s3) => match s3.sweep_fee_debt(i) {
                                            Err(e) => Err(e),
                                            Ok(s4) => {
                                                if !s4.sound_after_conversion(i, price) {
                                                    Err(RiskError::Undercollateralized)
                                                } else {
                                                    match s4.finish_touched(r.1) {
                                                        Err(e) => Err(e),
                                                        Ok(s5) => s5.end_instruction(r.1),
                                                    }
                                                }
                                            },
                                        },
                                    },
                                },
                            }
                        }
                    }
                },
            }
        }
    }

    /// Why account `i` cannot be closed, if so.
    pub open spec fn close_error(self, i: int) -> Option<RiskError> {
        let a = self.accounts[i];
        if self.effective_pos(i) != 0 {
            Some(RiskError::Undercollateralized)
        } else if a.pnl > 0 {
            Some(RiskError::PnlNotWarmedUp)
        } else if a.pnl < 0 || a.fee_credits.v < 0 || a.reserved_pnl != 0 || a.sched_present != 0
            || a.pending_present != 0 {
            Some(RiskError::Undercollateralized)
        } else {
            None
        }
    }

    /// Pay all capital of account `i` out of the vault.
    pub open spec fn pay_out(self, i: int) -> Result<(EngineState, u128), RiskError> {
        let cap = self.accounts[i].capital.v;
        if cap > self.vault.v {
            Err(RiskError::InsufficientBalance)
        } else {
            let s0 = EngineState { vault: U128 { v: (self.vault.v - cap) as u128 }, ..self };
            match s0.set_capital(i, 0) {
                Err(e) => Err(e),
                Ok(s) => Ok((s, cap)),
            }
        }
    }

    /// Free slot `idx`, then check the postconditions.
    pub open spec fn free_and_check(self, idx: u16) -> Result<EngineState, RiskError> {
        let r = self.free_slot(idx);
        match r.1 {
            Err(e) => Err(e),
            Ok(_) => r.0.postconditions(),
        }
    }

    /// Close account `idx` and pay out its capital.
    #[verifier::opaque]
    pub open spec fn close_account(
        self,
        idx: u16,
        now: u64,
        price: u64,
        rate: i128,
        h_min: u64,
        h_max: u64,
    ) -> Result<(EngineState, u128), RiskError> {
        let i = idx as int;
        if !admission_ok(h_min, h_max, self.params) {
            Err(RiskError::Overflow)
        } else if !self.is_live() {
            Err(RiskError::Unauthorized)
        } else if !self.in_use(i) {
            Err(RiskError::AccountNotFound)
        } else {
            match self.start_live(i, price, now, rate, h_min, h_max) {
                Err(e) => Err(e),
                Ok(r) => match r.0.finish_touched(r.1) {
                    Err(e) => Err(e),
                    Ok(s1) => {
                        if s1.close_error(i) is Some {
                            Err(s1.close_error(i)->0)
                        } else {
                            match s1.pay_out(i) {
                                Err(e) => Err(e),
                                Ok(p) => match p.0.schedule_resets(r.1) {
                                    Err(e) => Err(e),
                                    Ok(t) => match t.0.finalize_resets(t.1) {
                                        Err(e) => Err(e),
                                        Ok(s3) => match s3.free_and_check(idx) {
                                            Err(e) => Err(e),
                                            Ok(s4) => Ok((s4, p.1)),
                                        },
                                    },
                                },
                            }
                        }
                    },
                },
            }
        }
    }

    /// Account `i` holds nothing but at most dust: no position, no PnL, no reserve,
    /// no credit, and less capital than a first deposit.
    pub open spec fn is_dust(self, i: int) -> bool {
        let a = self.accounts[i];
        &&& a.position_basis_q == 0
        &&& a.pnl == 0
        &&& a.reserved_pnl == 0
        &&& a.sched_present == 0
        &&& a.pending_present == 0
        &&& a.fee_credits.v <= 0
        &&& a.capital.v < self.params.min_initial_deposit.v
    }

    /// Give the dust capital of account `i` to the insurance fund and forgive its
    /// fee debt, as garbage collection does it: the capital leaves the account before
    /// it reaches the fund.
    pub open spec fn empty_dust(self, i: int) -> Result<EngineState, RiskError> {
        let cap = self.accounts[i].capital.v;
        match if cap > 0 {
            match self.set_capital(i, 0) {
                Err(e) => Err(e),
                Ok(t) => match u128_or(t.insurance_fund.balance.v + cap, RiskError::Overflow) {
                    Err(e) => Err(e),
                    Ok(insurance) => Ok(t.with_insurance(insurance)),
                },
            }
        } else {
            Ok(self)
        } {
            Err(e) => Err(e),
            Ok(s1) => {
                Ok(s1.with_account(i, Account { fee_credits: I128 { v: 0 }, ..s1.accounts[i] }))
            },
        }
    }

    /// Give the dust capital of account `i` to the insurance fund and forgive its
    /// fee debt, as reclaiming does it: first it makes sure that the fund has room.
    pub open spec fn sweep_dust(self, i: int) -> Result<EngineState, RiskError> {
        let cap = self.accounts[i].capital.v;
        match if cap > 0 {
            match u128_or(self.insurance_fund.balance.v + cap, RiskError::Overflow) {
                Err(e) => Err(e),
                Ok(insurance) => match self.set_capital(i, 0) {
                    Err(e) => Err(e),
                    Ok(t) => Ok(t.with_insurance(insurance)),
                },
            }
        } else {
            Ok(self)
        } {
            Err(e) => Err(e),
            Ok(s1) => {
                Ok(s1.with_account(i, Account { fee_credits: I128 { v: 0 }, ..s1.accounts[i] }))
            },
        }
    }

    /// Reclaim the slot of account `idx`, which holds at most dust: the state it
    /// leaves, and what it returns. An error after the slot time was set leaves
    /// that time.
    pub open spec fn reclaim(self, idx: u16, now: u64) -> (EngineState, Result<(), RiskError>) {
        let i = idx as int;
        let a = self.accounts[i];
        let s1 = self.at_slot(now);
        if !self.is_live() {
            (self, Err(RiskError::Unauthorized))
        } else if !self.in_use(i) {
            (self, Err(RiskError::AccountNotFound))
        } else if now < self.current_slot {
            (self, Err(RiskError::Overflow))
        } else if a.position_basis_q != 0 || a.pnl != 0 || a.reserved_pnl != 0 || a.sched_present != 0
            || a.pending_present != 0 {
            (self, Err(RiskError::Undercollateralized))
        } else if a.fee_credits.v > 0 {
            (self, Err(RiskError::CorruptState))
        } else if a.capital.v >= self.params.min_initial_deposit.v {
            (s1, Err(RiskError::Undercollateralized))
        } else {
            match s1.sweep_dust(i) {
                Err(e) => (s1, Err(e)),
                Ok(s2) => {
                    let r = s2.free_slot(idx);
                    match r.1 {
                        Err(e) => (r.0, Err(e)),
                        Ok(_) => (
                            r.0,
                            if r.0.conserved() && r.0.oi_balanced() {
                                Ok(())
                            } else {
                                Err(RiskError::CorruptState)
                            },
                        ),
                    }
                },
            }
        }
    }

    /// Collecting dust from `start` on, over the first `n` slots: the state, the
    /// slots to free, and how many slots were looked at.
    pub open spec fn collect_dust(self, start: int, n: nat) -> Result<(EngineState, Seq<u16>, nat), RiskError>
        decreases n,
    {
        if n == 0 {
            Ok((self, Seq::empty(), 0))
        } else {
            match self.collect_dust(start, (n - 1) as nat) {
                Err(e) => Err(e),
                Ok(r) => {
                    let i = (start + n - 1) % (MAX_ACCOUNTS as int);
                    if r.1.len() >= GC_CLOSE_BUDGET {
                        Ok(r)
                    } else if r.0.used[i] && r.0.is_dust(i) {
                        match r.0.empty_dust(i) {
                            Err(e) => Err(e),
                            Ok(s) => Ok((s, r.1.push(i as u16), n)),
                        }
                    } else {
                        Ok((r.0, r.1, n))
                    }
                },
            }
        }
    }

    /// Free the first `n` slots of a list.
    pub open spec fn free_slots(self, list: Seq<u16>, n: nat) -> Result<EngineState, RiskError>
        decreases n,
    {
        if n == 0 {
            Ok(self)
        } else {
            match self.free_slots(list, (n - 1) as nat) {
                Err(e) => Err(e),
                Ok(s) => {
                    let r = s.free_slot(list[n - 1]);
                    match r.1 {
                        Err(e) => Err(e),
                        Ok(_) => Ok(r.0),
                    }
                },
            }
        }
    }

    /// Garbage collection: look at the next slots after the cursor, free those that
    /// hold at most dust, and move the cursor by what was looked at.
    pub open spec fn collect_garbage(self) -> Result<(EngineState, u32), RiskError> {
        let start = self.gc_cursor as int;
        match self.collect_dust(start, ACCOUNTS_PER_CRANK as nat) {
            Err(e) => Err(e),
            Ok(r) => {
                let s1 = EngineState { gc_cursor: ((start + r.2) % (MAX_ACCOUNTS as int)) as u16, ..r.0 };
                match s1.free_slots(r.1, r.1.len()) {
                    Err(e) => Err(e),
                    Ok(s2) => Ok((s2, r.1.len() as u32)),
                }
            },
        }
    }

    /// Add to the insurance fund. Tells whether it is above its floor.
    pub open spec fn top_up(self, amount: u128, now: u64) -> Result<(EngineState, bool), RiskError> {
        if !self.is_live() {
            Err(RiskError::Unauthorized)
        } else if self.current_slot > now {
            Err(RiskError::Overflow)
        } else if self.vault.v + amount > MAX_VAULT_TVL {
            Err(RiskError::Overflow)
        } else {
            match u128_or(self.insurance_fund.balance.v + amount, RiskError::Overflow) {
                Err(e) => Err(e),
                Ok(insurance) => {
                    Ok(
                        (
                            EngineState {
                                current_slot: now,
                                vault: U128 { v: (self.vault.v + amount) as u128 },
                                insurance_fund: InsuranceFund { balance: U128 { v: insurance } },
                                ..self
                            },
                            insurance > self.params.insurance_floor.v,
                        ),
                    )
                },
            }
        }
    }

    /// Charge account `idx` one fee.
    pub open spec fn charge_account(self, idx: u16, fee: u128, now: u64) -> Result<EngineState, RiskError> {
        let i = idx as int;
        if !self.is_live() {
            Err(RiskError::Unauthorized)
        } else if !self.in_use(i) {
            Err(RiskError::AccountNotFound)
        } else if self.current_slot > now {
            Err(RiskError::Overflow)
        } else {
            match self.at_slot(now).charge_fee(i, fee) {
                Err(e) => Err(e),
                Ok(r) => r.0.postconditions(),
            }
        }
    }

    /// Account `i` has neither a position nor a reserve.
    pub open spec fn is_flat_and_clear(self, i: int) -> bool {
        let a = self.accounts[i];
        a.position_basis_q == 0 && a.reserved_pnl == 0 && a.sched_present == 0 && a.pending_present == 0
    }

    /// Settle the negative PnL of the flat account `idx` without accruing.
    pub open spec fn settle_flat(self, idx: u16, now: u64) -> Result<EngineState, RiskError> {
        let i = idx as int;
        let a = self.accounts[i];
        if !self.is_live() {
            Err(RiskError::Unauthorized)
        } else if !self.in_use(i) {
            Err(RiskError::AccountNotFound)
        } else if self.current_slot > now {
            Err(RiskError::Overflow)
        } else if !self.is_flat_and_clear(i) {
            Err(RiskError::Undercollateralized)
        } else if a.pnl >= 0 {
            Ok(self)
        } else {
            match self.at_slot(now).settle_losses(i) {
                Err(e) => Err(e),
                Ok(s1) => match s1.resolve_flat_negative(i) {
                    Err(e) => Err(e),
                    Ok(s2) => s2.postconditions(),
                },
            }
        }
    }

    /// Charge the recurring fee of account `idx` up to now, or up to the resolution
    /// of the market.
    pub open spec fn sync_account_fee(self, idx: u16, now: u64, rate: u128) -> Result<EngineState, RiskError> {
        let i = idx as int;
        if !self.in_use(i) {
            Err(RiskError::AccountNotFound)
        } else if self.current_slot > now {
            Err(RiskError::Overflow)
        } else {
            match if self.is_live() {
                self.at_slot(now).sync_fee(i, now, rate)
            } else {
                self.sync_fee(i, self.resolved_slot, rate)
            } {
                Err(e) => Err(e),
                Ok(s) => s.postconditions(),
            }
        }
    }

    /// Pay `amount` of account `idx`'s fee debt from outside; never more than the
    /// debt.
    pub open spec fn pay_fee_debt(self, idx: u16, amount: u128, now: u64) -> Result<EngineState, RiskError> {
        let i = idx as int;
        if !self.is_live() {
            Err(RiskError::Unauthorized)
        } else if !self.in_use(i) {
            Err(RiskError::AccountNotFound)
        } else if self.current_slot > now {
            Err(RiskError::Overflow)
        } else {
            let a = self.accounts[i];
            if amount > a.fee_debt() {
                Err(RiskError::Overflow)
            } else if amount == 0 {
                Ok(self.at_slot(now))
            } else {
                if amount > i128::MAX {
                    Err(RiskError::Overflow)
                } else if self.vault.v + amount > MAX_VAULT_TVL {
                    Err(RiskError::Overflow)
                } else {
                    match u128_or(self.insurance_fund.balance.v + amount, RiskError::Overflow) {
                        Err(e) => Err(e),
                        Ok(insurance) => {
                            Ok(
                                EngineState {
                                    current_slot: now,
                                    vault: U128 { v: (self.vault.v + amount) as u128 },
                                    insurance_fund: InsuranceFund { balance: U128 { v: insurance } },
                                    ..self.with_account(
                                        i,
                                        Account { fee_credits: I128 { v: (a.fee_credits.v + amount) as i128 }, ..a },
                                    )
                                },
                            )
                        },
                    }
                }
            }
        }
    }
}

/// Whether a key is all zero bytes.
pub(crate) fn is_zero_key(k: &[u8; 32]) -> (r: bool)
    ensures
        r == (k@ == zero_key()),
{
    let mut i: usize = 0;
    while i < 32
        invariant
            i <= 32,
            forall|j: int| 0 <= j < i ==> k@[j] == 0,
        decreases 32 - i,
    {
        if k[i] != 0 {
            assert(k@[i as int] != zero_key()[i as int]);
            return false;
        }
        i += 1;
    }
    assert(k@ =~= zero_key());
    true
}

impl RiskEngine {
    /// Claim an account for an owner.
    pub fn set_owner(&mut self, idx: u16, owner: [u8; 32]) -> (r: Result<(), RiskError>)
        requires
            old(self).wf(),
        ensures
            final(self).wf(),
            agrees_unit(old(self)@.set_owner(idx, owner), r, final(self)@),
            r is Err ==> final(self)@ == old(self)@,
    {
        if !self.is_used(idx as usize) {
            return Err(RiskError::Unauthorized);
        }
        if is_zero_key(&owner) {
            return Err(RiskError::Unauthorized);
        }
        let mut a: Account = self.accounts[idx as usize];
        if !is_zero_key(&a.owner) {
            return Err(RiskError::Unauthorized);
        }
        a.owner = owner;
        self.accounts.set(idx as usize, a);
        Ok(())
    }

    pub(crate) fn start_live(
        &mut self,
        idx: usize,
        oracle_price: u64,
        now_slot: u64,
        funding_rate_e9: i128,
        ctx: &mut InstructionContext,
    ) -> (r: Result<(), RiskError>)
        requires
            old(self).wf(),
            old(ctx).wf(),
            old(ctx)@ == CtxState::fresh(old(ctx)@.admit_h_min, old(ctx)@.admit_h_max),
        ensures
            final(self).wf(),
            final(ctx).wf(),
            final(ctx)@.slots_ok(),
            match r {
                Ok(_) => old(self)@.start_live(
                    idx as int,
                    oracle_price,
                    now_slot,
                    funding_rate_e9,
                    old(ctx)@.admit_h_min,
                    old(ctx)@.admit_h_max,
                ) == Ok::<(EngineState, CtxState), RiskError>((final(self)@, final(ctx)@)),
                Err(e) => old(self)@.start_live(
                    idx as int,
                    oracle_price,
                    now_slot,
                    funding_rate_e9,
                    old(ctx)@.admit_h_min,
                    old(ctx)@.admit_h_max,
                ) == Err::<(EngineState, CtxState), RiskError>(e),
            },
            old(self)@.accrue(now_slot, oracle_price, funding_rate_e9) is Err ==> r is Err && final(self)@ == old(self)@,
    {
        self.accrue_market_to(now_slot, oracle_price, funding_rate_e9)?;
        self.touch_account_live_local(idx, ctx)
    }

    /// Deposit into an account. The oracle price does not matter.
    pub fn deposit_not_atomic(
        &mut self,
        idx: u16,
        amount: u128,
        _oracle_price: u64,
        now_slot: u64,
    ) -> (r: Result<(), RiskError>)
        requires
            old(self).wf(),
        ensures
            final(self).wf(),
            agrees_unit(old(self)@.deposit(idx, amount, now_slot), r, final(self)@),
            r is Ok ==> final(self)@.conserved() && final(self)@.oi_balanced(),
            old(self)@.deposit_refused(idx, amount, now_slot) ==> r is Err && final(self)@ == old(self)@,
    {
        proof {
            reveal(EngineState::deposit);
        }
        if self.market_mode != MarketMode::Live {
            return Err(RiskError::Unauthorized);
        }
        if now_slot < self.current_slot {
            return Err(RiskError::Overflow);
        }
        if now_slot < self.last_market_slot {
            return Err(RiskError::Overflow);
        }
        let v: u128 = self.vault.v.checked_add(amount).ok_or(RiskError::Overflow)?;
        if v > MAX_VAULT_TVL {
            return Err(RiskError::Overflow);
        }
        if !self.is_used(idx as usize) {
            if amount < self.params.min_initial_deposit.v {
                return Err(RiskError::InsufficientBalance);
            }
            self.materialize_at(idx, now_slot)?;
        }
        let i: usize = idx as usize;
        if self.accounts[i].pnl == i128::MIN {
            return Err(RiskError::CorruptState);
        }
        self.current_slot = now_slot;
        self.vault = U128 { v };
        let cap: u128 = self.accounts[i].capital.v.checked_add(amount).ok_or(RiskError::Overflow)?;
        self.set_capital(i, cap)?;
        self.settle_losses(i)?;
        if self.accounts[i].position_basis_q == 0 && self.accounts[i].pnl >= 0 {
            self.fee_debt_sweep(i)?;
        }
        self.assert_public_postconditions()
    }

    fn withdrawal_margin_ok(&self, idx: usize, amount: u128, oracle_price: u64) -> (r: bool)
        requires
            self.wf(),
            idx < MAX_ACCOUNTS,
            price_ok(oracle_price),
        ensures
            r == self@.withdrawal_margin_ok(idx as int, amount, oracle_price),
    {
        let eff: i128 = self.effective_pos_q(idx);
        if eff == 0 {
            return true;
        }
        proof {
            lemma_effective_pos_bound(self@, idx as int);
            lemma_notional_bound(eff as int, oracle_price as int);
            lemma_muldiv_bound(
                notional_of(eff as int, oracle_price as int),
                100_000_000_000_000_000_000_000_000_000_000_000,
                self.params.initial_margin_bps as int,
                10_000,
                10_000,
            );
        }
        let eq: i128 = self.account_equity_withdraw_raw(&self.accounts[idx], idx);
        let eq_post: i128 = saturating_sub_i128(eq, amount as i128);
        let im_req: u128 = self.im_req_for(eff, oracle_price);
        eq_post >= im_req as i128
    }

    /// Withdraw from an account.
    pub fn withdraw_not_atomic(
        &mut self,
        idx: u16,
        amount: u128,
        oracle_price: u64,
        now_slot: u64,
        funding_rate_e9: i128,
        admit_h_min: u64,
        admit_h_max: u64,
    ) -> (r: Result<(), RiskError>)
        requires
            old(self).wf(),
        ensures
            final(self).wf(),
            agrees_unit(
                old(self)@.withdraw(idx, amount, oracle_price, now_slot, funding_rate_e9, admit_h_min, admit_h_max),
                r,
                final(self)@,
            ),
            r is Ok ==> final(self)@.conserved() && final(self)@.oi_balanced(),
            old(self)@.start_refused(idx as int, oracle_price, now_slot, funding_rate_e9, admit_h_min, admit_h_max)
                ==> r is Err && final(self)@ == old(self)@,
    {
        proof {
            reveal(EngineState::withdraw);
        }
        RiskEngine::validate_admission_pair(admit_h_min, admit_h_max, &self.params)?;
        if oracle_price == 0 || oracle_price > MAX_ORACLE_PRICE {
            return Err(RiskError::Overflow);
        }
        if !self.is_used(idx as usize) {
            return Err(RiskError::AccountNotFound);
        }
        if self.market_mode != MarketMode::Live {
            return Err(RiskError::Unauthorized);
        }
        let i: usize = idx as usize;
        let mut ctx: InstructionContext = InstructionContext::new_with_admission(admit_h_min, admit_h_max);
        self.start_live(i, oracle_price, now_slot, funding_rate_e9, &mut ctx)?;
        self.finalize_touched_accounts_post_live(&ctx)?;
        let cap: u128 = self.accounts[i].capital.v;
        if cap < amount {
            return Err(RiskError::InsufficientBalance);
        }
        let left: u128 = cap - amount;
        if left != 0 && left < self.params.min_initial_deposit.v {
            return Err(RiskError::InsufficientBalance);
        }
        if !self.withdrawal_margin_ok(i, amount, oracle_price) {
            return Err(RiskError::Undercollateralized);
        }
        self.set_capital(i, left)?;
        let v: u128 = self.vault.v.checked_sub(amount).ok_or(RiskError::CorruptState)?;
        self.vault = U128 { v };
        self.end_instruction(&mut ctx)
    }

    /// Settle an account.
    pub fn settle_account_not_atomic(
        &mut self,
        idx: u16,
        oracle_price: u64,
        now_slot: u64,
        funding_rate_e9: i128,
        admit_h_min: u64,
        admit_h_max: u64,
    ) -> (r: Result<(), RiskError>)
        requires
            old(self).wf(),
        ensures
            final(self).wf(),
            agrees_unit(
                old(self)@.settle_account(idx, oracle_price, now_slot, funding_rate_e9, admit_h_min, admit_h_max),
                r,
                final(self)@,
            ),
            r is Ok ==> final(self)@.conserved() && final(self)@.oi_balanced(),
            old(self)@.start_refused(idx as int, oracle_price, now_slot, funding_rate_e9, admit_h_min, admit_h_max)
                ==> r is Err && final(self)@ == old(self)@,
    {
        proof {
            reveal(EngineState::settle_account);
        }
        RiskEngine::validate_admission_pair(admit_h_min, admit_h_max, &self.params)?;
        if oracle_price == 0 || oracle_price > MAX_ORACLE_PRICE {
            return Err(RiskError::Overflow);
        }
        if !self.is_used(idx as usize) {
            return Err(RiskError::AccountNotFound);
        }
        if self.market_mode != MarketMode::Live {
            return Err(RiskError::Unauthorized);
        }
        let mut ctx: InstructionContext = InstructionContext::new_with_admission(admit_h_min, admit_h_max);
        self.start_live(idx as usize, oracle_price, now_slot, funding_rate_e9, &mut ctx)?;
        self.finalize_touched_accounts_post_live(&ctx)?;
        self.end_instruction(&mut ctx)
    }

    fn sound_after_conversion(&self, idx: usize, oracle_price: u64) -> (r: bool)
        requires
            self.wf(),
            idx < MAX_ACCOUNTS,
            price_ok(oracle_price),
        ensures
            r == self@.sound_after_conversion(idx as int, oracle_price),
    {
        proof {
            lemma_effective_pos_bound(self@, idx as int);
            lemma_notional_bound(self@.effective_pos(idx as int), oracle_price as int);
        }
        if self.effective_pos_q(idx) != 0 {
            self.is_above_maintenance_margin(&self.accounts[idx], idx, oracle_price)
        } else {
            self.account_equity_maint_raw(&self.accounts[idx]) >= 0
        }
    }

    /// Convert matured PnL of an account into capital.
    pub fn convert_released_pnl_not_atomic(
        &mut self,
        idx: u16,
        x_req: u128,
        oracle_price: u64,
        now_slot: u64,
        funding_rate_e9: i128,
        admit_h_min: u64,
        admit_h_max: u64,
    ) -> (r: Result<(), RiskError>)
        requires
            old(self).wf(),
        ensures
            final(self).wf(),
            agrees_unit(
                old(self)@.convert_released(
                    idx,
                    x_req,
                    oracle_price,
                    now_slot,
                    funding_rate_e9,
                    admit_h_min,
                    admit_h_max,
                ),
                r,
                final(self)@,
            ),
            r is Ok ==> final(self)@.conserved() && final(self)@.oi_balanced(),
            old(self)@.start_refused(idx as int, oracle_price, now_slot, funding_rate_e9, admit_h_min, admit_h_max)
                ==> r is Err && final(self)@ == old(self)@,
    {
        proof {
            reveal(EngineState::convert_released);
        }
        RiskEngine::validate_admission_pair(admit_h_min, admit_h_max, &self.params)?;
        if oracle_price == 0 || oracle_price > MAX_ORACLE_PRICE {
            return Err(RiskError::Overflow);
        }
        if !self.is_used(idx as usize) {
            return Err(RiskError::AccountNotFound);
        }
        if self.market_mode != MarketMode::Live {
            return Err(RiskError::Unauthorized);
        }
        let i: usize = idx as usize;
        let mut ctx: InstructionContext = InstructionContext::new_with_admission(admit_h_min, admit_h_max);
        self.start_live(i, oracle_price, now_slot, funding_rate_e9, &mut ctx)?;
        let released: u128 = self.released_pos(i);
        if x_req == 0 || x_req > released {
            return Err(RiskError::Overflow);
        }
        let (h_num, h_den): (u128, u128) = self.haircut_ratio();
        if self.accounts[i].position_basis_q == 0 {
            let max_safe: u128 = self.max_safe_flat_conversion_released(i, x_req, h_num, h_den);
            if x_req > max_safe {
                return Err(RiskError::Undercollateralized);
            }
        }
        proof {
            lemma_haircut_shrinks(x_req as int, h_num as int, h_den as int);
        }
        let y: u128 = mul_div_floor_u128(x_req, h_num, h_den);
        self.consume_released_pnl(i, x_req)?;
        let cap: u128 = self.accounts[i].capital.v.checked_add(y).ok_or(RiskError::Overflow)?;
        self.set_capital(i, cap)?;
        self.fee_debt_sweep(i)?;
        if !self.sound_after_conversion(i, oracle_price) {
            return Err(RiskError::Undercollateralized);
        }
        self.finalize_touched_accounts_post_live(&ctx)?;
        self.end_instruction(&mut ctx)
    }

    pub(crate) fn pay_out(&mut self, idx: usize) -> (r: Result<u128, RiskError>)
        requires
            old(self).wf(),
            idx < MAX_ACCOUNTS,
        ensures
            final(self).wf(),
            agrees(old(self)@.pay_out(idx as int), r, final(self)@),
    {
        let cap: u128 = self.accounts[idx].capital.v;
        if cap > self.vault.v {
            return Err(RiskError::InsufficientBalance);
        }
        self.vault = U128 { v: self.vault.v - cap };
        self.set_capital(idx, 0)?;
        Ok(cap)
    }

    pub(crate) fn free_and_check(&mut self, idx: u16) -> (r: Result<(), RiskError>)
        requires
            old(self).wf(),
        ensures
            final(self).wf(),
            agrees_unit(old(self)@.free_and_check(idx), r, final(self)@),
    {
        self.free_slot(idx)?;
        self.assert_public_postconditions()
    }

    /// Close an account and pay out its capital.
    pub fn close_account_not_atomic(
        &mut self,
        idx: u16,
        now_slot: u64,
        oracle_price: u64,
        funding_rate_e9: i128,
        admit_h_min: u64,
        admit_h_max: u64,
    ) -> (r: Result<u128, RiskError>)
        requires
            old(self).wf(),
        ensures
            final(self).wf(),
            agrees(
                old(self)@.close_account(idx, now_slot, oracle_price, funding_rate_e9, admit_h_min, admit_h_max),
                r,
                final(self)@,
            ),
            r is Ok ==> final(self)@.conserved() && final(self)@.oi_balanced(),
            old(self)@.start_refused(idx as int, oracle_price, now_slot, funding_rate_e9, admit_h_min, admit_h_max)
                ==> r is Err && final(self)@ == old(self)@,
    {
        proof {
            reveal(EngineState::close_account);
        }
        RiskEngine::validate_admission_pair(admit_h_min, admit_h_max, &self.params)?;
        if self.market_mode != MarketMode::Live {
            return Err(RiskError::Unauthorized);
        }
        if !self.is_used(idx as usize) {
            return Err(RiskError::AccountNotFound);
        }
        let i: usize = idx as usize;
        let mut ctx: InstructionContext = InstructionContext::new_with_admission(admit_h_min, admit_h_max);
        self.start_live(i, oracle_price, now_slot, funding_rate_e9, &mut ctx)?;
        self.finalize_touched_accounts_post_live(&ctx)?;
        if self.effective_pos_q(i) != 0 {
            return Err(RiskError::Undercollateralized);
        }
        let a: Account = self.accounts[i];
        if a.pnl > 0 {
            return Err(RiskError::PnlNotWarmedUp);
        }
        if a.pnl < 0 {
            return Err(RiskError::Undercollateralized);
        }
        if a.fee_credits.v < 0 {
            return Err(RiskError::Undercollateralized);
        }
        if a.reserved_pnl != 0 || a.sched_present != 0 || a.pending_present != 0 {
            return Err(RiskError::Undercollateralized);
        }
        let capital: u128 = self.pay_out(i)?;
        self.schedule_end_of_instruction_resets(&mut ctx)?;
        self.finalize_end_of_instruction_resets(&ctx)?;
        self.free_and_check(idx)?;
        Ok(capital)
    }

    fn empty_dust(&mut self, idx: usize) -> (r: Result<(), RiskError>)
        requires
            old(self).wf(),
            idx < MAX_ACCOUNTS,
            old(self)@.accounts[idx as int].fee_credits.v <= 0,
        ensures
            final(self).wf(),
            agrees_unit(old(self)@.empty_dust(idx as int), r, final(self)@),
    {
        let cap: u128 = self.accounts[idx].capital.v;
        if cap > 0 {
            self.set_capital(idx, 0)?;
            let insurance: u128 = self.insurance_fund.balance.v.checked_add(cap).ok_or(RiskError::Overflow)?;
            self.insurance_fund = InsuranceFund { balance: U128 { v: insurance } };
        }
        let mut a: Account = self.accounts[idx];
        a.fee_credits = I128 { v: 0 };
        self.accounts.set(idx, a);
        Ok(())
    }

    fn sweep_dust(&mut self, idx: usize) -> (r: Result<(), RiskError>)
        requires
            old(self).wf(),
            idx < MAX_ACCOUNTS,
            old(self)@.accounts[idx as int].fee_credits.v <= 0,
        ensures
            final(self).wf(),
            agrees_unit(old(self)@.sweep_dust(idx as int), r, final(self)@),
            r is Err ==> final(self)@ == old(self)@,
    {
        let cap: u128 = self.accounts[idx].capital.v;
        if cap > 0 {
            let insurance: u128 = self.insurance_fund.balance.v.checked_add(cap).ok_or(RiskError::Overflow)?;
            self.set_capital(idx, 0)?;
            self.insurance_fund = InsuranceFund { balance: U128 { v: insurance } };
        }
        let mut a: Account = self.accounts[idx];
        a.fee_credits = I128 { v: 0 };
        self.accounts.set(idx, a);
        Ok(())
    }

    /// Reclaim the slot of an account that holds at most dust.
    pub fn reclaim_empty_account_not_atomic(&mut self, idx: u16, now_slot: u64) -> (r: Result<(), RiskError>)
        requires
            old(self).wf(),
        ensures
            final(self).wf(),
            old(self)@.reclaim(idx, now_slot) == (final(self)@, r),
            r is Ok ==> final(self)@.conserved() && final(self)@.oi_balanced(),
    {
        if self.market_mode != MarketMode::Live {
            return Err(RiskError::Unauthorized);
        }
        if !self.is_used(idx as usize) {
            return Err(RiskError::AccountNotFound);
        }
        if now_slot < self.current_slot {
            return Err(RiskError::Overflow);
        }
        let a: Account = self.accounts[idx as usize];
        if a.position_basis_q != 0 {
            return Err(RiskError::Undercollateralized);
        }
        if a.pnl != 0 {
            return Err(RiskError::Undercollateralized);
        }
        if a.reserved_pnl != 0 {
            return Err(RiskError::Undercollateralized);
        }
        if a.sched_present != 0 || a.pending_present != 0 {
            return Err(RiskError::Undercollateralized);
        }
        if a.fee_credits.v > 0 {
            return Err(RiskError::CorruptState);
        }
        self.current_slot = now_slot;
        if a.capital.v >= self.params.min_initial_deposit.v {
            return Err(RiskError::Undercollateralized);
        }
        self.sweep_dust(idx as usize)?;
        self.free_slot(idx)?;
        self.assert_public_postconditions()?;
        Ok(())
    }

    /// Free slots that hold at most dust. Returns how many.
    pub fn garbage_collect_dust(&mut self) -> (r: Result<u32, RiskError>)
        requires
            old(self).wf(),
        ensures
            final(self).wf(),
            agrees(old(self)@.collect_garbage(), r, final(self)@),
    {
        let mut to_free: Vec<u16> = Vec::new();
        let start: usize = self.gc_cursor as usize;
        let max_scan: usize = ACCOUNTS_PER_CRANK as usize;
        let mut scanned: usize = 0;
        let mut n: usize = 0;
        let ghost s0 = self@;
        while n < max_scan
            invariant
                n <= max_scan,
                max_scan == ACCOUNTS_PER_CRANK,
                scanned <= n,
                start == s0.gc_cursor,
                s0 == old(self)@,
                self.wf(),
                to_free@.len() <= GC_CLOSE_BUDGET,
                s0.collect_dust(start as int, n as nat) == Ok::<(EngineState, Seq<u16>, nat), RiskError>(
                    (self@, to_free@, scanned as nat),
                ),
            decreases max_scan - n,
        {
            let idx: usize = (start + n) % MAX_ACCOUNTS;
            if to_free.len() < GC_CLOSE_BUDGET as usize {
                scanned = n + 1;
                if self.is_used(idx) && self.holds_dust(idx) {
                    match self.empty_dust(idx) {
                        Ok(_) => {},
                        Err(e) => {
                            proof {
                                assert(s0.collect_dust(start as int, (n + 1) as nat) == Err::<(EngineState, Seq<u16>, nat), RiskError>(e));
                                lemma_collect_stays_failed(s0, start as int, (n + 1) as nat, max_scan as nat);
                            }
                            return Err(e);
                        },
                    }
                    to_free.push(idx as u16);
                }
            }
            n += 1;
        }
        self.gc_cursor = ((start + scanned) % MAX_ACCOUNTS) as u16;
        let ghost s1 = self@;
        let count: usize = to_free.len();
        let mut k: usize = 0;
        while k < count
            invariant
                k <= count,
                count == to_free@.len(),
                self.wf(),
                s1.free_slots(to_free@, k as nat) == Ok::<EngineState, RiskError>(self@),
                s0.collect_garbage() == (match s1.free_slots(to_free@, count as nat) {
                        Err(e) => Err::<(EngineState, u32), RiskError>(e),
                        Ok(s2) => Ok::<(EngineState, u32), RiskError>((s2, count as u32)),
                }),
                s0 == old(self)@,
            decreases count - k,
        {
            match self.free_slot(to_free[k]) {
                Ok(_) => {},
                Err(e) => {
                    proof {
                        assert(s1.free_slots(to_free@, (k + 1) as nat) == Err::<EngineState, RiskError>(e));
                        lemma_free_stays_failed(s1, to_free@, (k + 1) as nat, count as nat);
                    }
                    return Err(e);
                },
            }
            k += 1;
        }
        Ok(count as u32)
    }

    /// Whether an account holds at most dust.
    pub(crate) fn holds_dust(&self, idx: usize) -> (r: bool)
        requires
            self.wf(),
            idx < MAX_ACCOUNTS,
        ensures
            r == self@.is_dust(idx as int),
    {
        let a: Account = self.accounts[idx];
        a.position_basis_q == 0 && a.pnl == 0 && a.reserved_pnl == 0 && a.sched_present == 0
            && a.pending_present == 0 && a.fee_credits.v <= 0
            && a.capital.v < self.params.min_initial_deposit.v
    }

    /// Add to the insurance fund.
    pub fn top_up_insurance_fund(&mut self, amount: u128, now_slot: u64) -> (r: Result<bool, RiskError>)
        requires
            old(self).wf(),
        ensures
            final(self).wf(),
            agrees(old(self)@.top_up(amount, now_slot), r, final(self)@),
            r is Err ==> final(self)@ == old(self)@,
    {
        if self.market_mode != MarketMode::Live {
            return Err(RiskError::Unauthorized);
        }
        if now_slot < self.current_slot {
            return Err(RiskError::Overflow);
        }
        let v: u128 = self.vault.v.checked_add(amount).ok_or(RiskError::Overflow)?;
        if v > MAX_VAULT_TVL {
            return Err(RiskError::Overflow);
        }
        let insurance: u128 = self.insurance_fund.balance.v.checked_add(amount).ok_or(RiskError::Overflow)?;
        self.current_slot = now_slot;
        self.vault = U128 { v };
        self.insurance_fund = InsuranceFund { balance: U128 { v: insurance } };
        Ok(insurance > self.params.insurance_floor.v)
    }

    /// Charge an account one fee.
    pub fn charge_account_fee_not_atomic(
        &mut self,
        idx: u16,
        fee_abs: u128,
        now_slot: u64,
    ) -> (r: Result<(), RiskError>)
        requires
            old(self).wf(),
        ensures
            final(self).wf(),
            agrees_unit(old(self)@.charge_account(idx, fee_abs, now_slot), r, final(self)@),
            r is Ok ==> final(self)@.conserved() && final(self)@.oi_balanced(),
            old(self)@.charge_refused(idx, now_slot) ==> r is Err && final(self)@ == old(self)@,
    {
        if self.market_mode != MarketMode::Live {
            return Err(RiskError::Unauthorized);
        }
        if !self.is_used(idx as usize) {
            return Err(RiskError::AccountNotFound);
        }
        if now_slot < self.current_slot {
            return Err(RiskError::Overflow);
        }
        self.current_slot = now_slot;
        let _split: FeeSplit = self.charge_fee_to_insurance(idx as usize, fee_abs)?;
        self.assert_public_postconditions()
    }

    /// Settle the negative PnL of a flat account without accruing.
    pub fn settle_flat_negative_pnl_not_atomic(&mut self, idx: u16, now_slot: u64) -> (r: Result<(), RiskError>)
        requires
            old(self).wf(),
        ensures
            final(self).wf(),
            agrees_unit(old(self)@.settle_flat(idx, now_slot), r, final(self)@),
            old(self)@.charge_refused(idx, now_slot) || !old(self)@.is_flat_and_clear(idx as int) ==> r is Err && final(self)@ == old(self)@,
    {
        if self.market_mode != MarketMode::Live {
            return Err(RiskError::Unauthorized);
        }
        if !self.is_used(idx as usize) {
            return Err(RiskError::AccountNotFound);
        }
        if now_slot < self.current_slot {
            return Err(RiskError::Overflow);
        }
        let i: usize = idx as usize;
        let a: Account = self.accounts[i];
        if a.position_basis_q != 0 {
            return Err(RiskError::Undercollateralized);
        }
        if a.reserved_pnl != 0 || a.sched_present != 0 || a.pending_present != 0 {
            return Err(RiskError::Undercollateralized);
        }
        if a.pnl >= 0 {
            return Ok(());
        }
        self.current_slot = now_slot;
        self.settle_losses(i)?;
        self.resolve_flat_negative(i)?;
        self.assert_public_postconditions()
    }

    /// Charge the recurring fee of an account.
    pub fn sync_account_fee_to_slot_not_atomic(
        &mut self,
        idx: u16,
        now_slot: u64,
        fee_rate_per_slot: u128,
    ) -> (r: Result<(), RiskError>)
        requires
            old(self).wf(),
        ensures
            final(self).wf(),
            agrees_unit(old(self)@.sync_account_fee(idx, now_slot, fee_rate_per_slot), r, final(self)@),
            r is Ok ==> final(self)@.conserved() && final(self)@.oi_balanced(),
            !old(self)@.in_use(idx as int) || old(self)@.current_slot > now_slot ==> r is Err && final(self)@ == old(self)@,
    {
        if !self.is_used(idx as usize) {
            return Err(RiskError::AccountNotFound);
        }
        if now_slot < self.current_slot {
            return Err(RiskError::Overflow);
        }
        let anchor: u64 = match self.market_mode {
            MarketMode::Live => {
                self.current_slot = now_slot;
                now_slot
            },
            MarketMode::Resolved => self.resolved_slot,
        };
        self.sync_account_fee_to_slot(idx as usize, anchor, fee_rate_per_slot)?;
        self.assert_public_postconditions()
    }

    /// Pay fee debt of an account from outside.
    pub fn deposit_fee_credits(&mut self, idx: u16, amount: u128, now_slot: u64) -> (r: Result<(), RiskError>)
        requires
            old(self).wf(),
        ensures
            final(self).wf(),
            agrees_unit(old(self)@.pay_fee_debt(idx, amount, now_slot), r, final(self)@),
            r is Err ==> final(self)@ == old(self)@,
    {
        if self.market_mode != MarketMode::Live {
            return Err(RiskError::Unauthorized);
        }
        if !self.is_used(idx as usize) {
            return Err(RiskError::AccountNotFound);
        }
        if now_slot < self.current_slot {
            return Err(RiskError::Overflow);
        }
        let mut a: Account = self.accounts[idx as usize];
        let debt: u128 = fee_debt_u128_checked(a.fee_credits.v);
        if amount > debt {
            return Err(RiskError::Overflow);
        }
        if amount == 0 {
            self.current_slot = now_slot;
            return Ok(());
        }
        if amount > 0x7fff_ffff_ffff_ffff_ffff_ffff_ffff_ffff {
            return Err(RiskError::Overflow);
        }
        let v: u128 = self.vault.v.checked_add(amount).ok_or(RiskError::Overflow)?;
        if v > MAX_VAULT_TVL {
            return Err(RiskError::Overflow);
        }
        let insurance: u128 = self.insurance_fund.balance.v.checked_add(amount).ok_or(RiskError::Overflow)?;
        a.fee_credits = I128 { v: a.fee_credits.v + (amount as i128) };
        self.current_slot = now_slot;
        self.vault = U128 { v };
        self.insurance_fund = InsuranceFund { balance: U128 { v: insurance } };
        self.accounts.set(idx as usize, a);
        Ok(())
    }

    /// Whether the market has been resolved.
    pub fn is_resolved(&self) -> (r: bool)
        ensures
            r == (self@.market_mode == MarketMode::Resolved),
    {
        self.market_mode == MarketMode::Resolved
    }

    /// Price and slot of the resolution.
    pub fn resolved_context(&self) -> (r: (u64, u64))
        ensures
            r == (self@.resolved_price, self@.resolved_slot),
    {
        (self.resolved_price, self.resolved_slot)
    }

    /// Move the current slot on.
    pub fn advance_slot(&mut self, slots: u64)
        requires
            old(self).wf(),
        ensures
            final(self).wf(),
            final(self)@ == old(self)@.at_slot(
                (if old(self)@.current_slot + slots <= u64::MAX {
                        old(self)@.current_slot + slots
                    } else {
                        u64::MAX as int
                }) as u64,
            ),
    {
        self.current_slot = self.current_slot.saturating_add(slots);
    }

    /// Number of used slots.
    pub fn count_used(&self) -> (r: u64)
        requires
            self.wf(),
        ensures
            r == used_among(self@.used, MAX_ACCOUNTS as nat),
    {
        let mut count: u64 = 0;
        let mut i: usize = 0;
        while i < MAX_ACCOUNTS
            invariant
                i <= MAX_ACCOUNTS,
                self.wf(),
                count <= i,
                count == used_among(self@.used, i as nat),
            decreases MAX_ACCOUNTS - i,
        {
            if self.is_used(i) {
                count += 1;
            }
            i += 1;
        }
        count
    }
}

proof fn lemma_collect_stays_failed(s: EngineState, start: int, m: nat, n: nat)
    requires
        m <= n,
        s.collect_dust(start, m) is Err,
    ensures
        s.collect_dust(start, n) == s.collect_dust(start, m),
    decreases n,
{
    if m < n {
        lemma_collect_stays_failed(s, start, m, (n - 1) as nat);
    }
}

proof fn lemma_free_stays_failed(s: EngineState, list: Seq<u16>, m: nat, n: nat)
    requires
        m <= n,
        s.free_slots(list, m) is Err,
    ensures
        s.free_slots(list, n) == s.free_slots(list, m),
    decreases n,
{
    if m < n {
        lemma_free_stays_failed(s, list, m, (n - 1) as nat);
    }
}

} // verus!
