//! The warmup reserve of an account: a scheduled bucket that matures linearly
//! and a pending bucket behind it.

use vstd::prelude::*;
use crate::constants::MAX_ACCOUNTS;
use crate::context::CtxState;
use crate::model::{agrees_unit, u128_or, EngineState};
use crate::types::{Account, InstructionContext, MarketMode, RiskEngine, RiskError, RiskParams};
use crate::wide_math::{max_of, min_of, min_u128, mul_div_floor_u128, muldiv, pos_of};

verus! {

impl Account {
    /// What the scheduled bucket holds.
    pub open spec fn sched_part(self) -> int {
        if self.sched_present != 0 {
            self.sched_remaining_q as int
        } else {
            0
        }
    }

    /// What the pending bucket holds.
    pub open spec fn pending_part(self) -> int {
        if self.pending_present != 0 {
            self.pending_remaining_q as int
        } else {
            0
        }
    }

    /// The scheduled bucket is absent and cleared, or present with a horizon in the
    /// configured range, something left in it, and no more released and left than
    /// it started with.
    pub open spec fn sched_shape_ok(self, p: RiskParams) -> bool {
        if self.sched_present == 0 {
            &&& self.sched_remaining_q == 0
            &&& self.sched_anchor_q == 0
            &&& self.sched_start_slot == 0
            &&& self.sched_horizon == 0
            &&& self.sched_release_q == 0
        } else {
            &&& self.sched_horizon != 0
            &&& p.h_min <= self.sched_horizon <= p.h_max
            &&& self.sched_remaining_q + self.sched_release_q <= self.sched_anchor_q
            &&& self.sched_remaining_q != 0
        }
    }

    /// The pending bucket is absent and cleared, or present with a horizon in the
    /// configured range and something in it.
    pub open spec fn pending_shape_ok(self, p: RiskParams) -> bool {
        if self.pending_present == 0 {
            &&& self.pending_remaining_q == 0
            &&& self.pending_horizon == 0
            &&& self.pending_created_slot == 0
        } else {
            &&& self.pending_horizon != 0
            &&& p.h_min <= self.pending_horizon <= p.h_max
            &&& self.pending_remaining_q != 0
        }
    }

    /// The reserve is well shaped: both buckets are, they add up to the reserved
    /// PnL, and that is at most the positive PnL.
    pub open spec fn reserve_shape_ok(self, p: RiskParams) -> bool {
        &&& self.sched_shape_ok(p)
        &&& self.pending_shape_ok(p)
        &&& self.sched_part() + self.pending_part() == self.reserved_pnl
        &&& self.reserved_pnl <= pos_of(self.pnl as int)
    }

    /// Both buckets cleared and nothing reserved.
    pub open spec fn without_reserve(self) -> Account {
        Account {
            sched_present: 0,
            sched_remaining_q: 0,
            sched_anchor_q: 0,
            sched_start_slot: 0,
            sched_horizon: 0,
            sched_release_q: 0,
            pending_present: 0,
            pending_remaining_q: 0,
            pending_horizon: 0,
            pending_created_slot: 0,
            reserved_pnl: 0,
            ..self
        }
    }

    /// The pending bucket moved into the scheduled place, starting at `now`.
    pub open spec fn promoted(self, now: u64) -> Account {
        Account {
            sched_present: 1,
            sched_remaining_q: self.pending_remaining_q,
            sched_anchor_q: self.pending_remaining_q,
            sched_start_slot: now,
            sched_horizon: self.pending_horizon,
            sched_release_q: 0,
            pending_present: 0,
            pending_remaining_q: 0,
            pending_horizon: 0,
            pending_created_slot: 0,
            ..self
        }
    }

    /// [`promoted`](Self::promoted) where only the pending bucket is present.
    pub open spec fn promoted_if_alone(self, now: u64) -> Account {
        if self.sched_present == 0 && self.pending_present != 0 {
            self.promoted(now)
        } else {
            self
        }
    }

    /// Reserve `add` more with horizon `h` at slot `now`: into a new scheduled
    /// bucket, into the scheduled one where it started in this very slot with this
    /// horizon, or into the pending one, whose horizon only grows.
    pub open spec fn reserve_appended(self, p: RiskParams, add: u128, now: u64, h: u64) -> Result<Account, RiskError> {
        if !self.reserve_shape_ok(p) {
            Err(RiskError::CorruptState)
        } else {
            let a = self.promoted_if_alone(now);
            match a.bucketed(add, now, h) {
                Err(e) => Err(e),
                Ok(b) => match u128_or(b.reserved_pnl + add, RiskError::Overflow) {
                    Err(e) => Err(e),
                    Ok(total) => Ok(Account { reserved_pnl: total, ..b }),
                },
            }
        }
    }

    /// The bucket step of [`reserve_appended`](Self::reserve_appended).
    pub open spec fn bucketed(self, add: u128, now: u64, h: u64) -> Result<Account, RiskError> {
        if self.sched_present == 0 {
            Ok(
                Account {
                    sched_present: 1,
                    sched_remaining_q: add,
                    sched_anchor_q: add,
                    sched_start_slot: now,
                    sched_horizon: h,
                    sched_release_q: 0,
                    ..self
                },
            )
        } else if self.pending_present == 0 && self.sched_start_slot == now && self.sched_horizon == h
            && self.sched_release_q == 0 {
            match u128_or(self.sched_remaining_q + add, RiskError::Overflow) {
                Err(e) => Err(e),
                Ok(left) => match u128_or(self.sched_anchor_q + add, RiskError::Overflow) {
                    Err(e) => Err(e),
                    Ok(anchor) => {
                        Ok(Account { sched_remaining_q: left, sched_anchor_q: anchor, ..self })
                    },
                },
            }
        } else if self.pending_present == 0 {
            Ok(
                Account {
                    pending_present: 1,
                    pending_remaining_q: add,
                    pending_horizon: h,
                    pending_created_slot: now,
                    ..self
                },
            )
        } else {
            match u128_or(self.pending_remaining_q + add, RiskError::Overflow) {
                Err(e) => Err(e),
                Ok(left) => {
                    Ok(
                        Account {
                            pending_remaining_q: left,
                            pending_horizon: max_of(self.pending_horizon as int, h as int) as u64,
                            ..self
                        },
                    )
                },
            }
        }
    }

    /// Take `take` out of the pending bucket; an emptied bucket is cleared.
    pub open spec fn pending_taken(self, take: int) -> Account {
        if take == 0 {
            self
        } else if take == self.pending_remaining_q {
            Account {
                pending_remaining_q: 0,
                pending_present: 0,
                pending_horizon: 0,
                pending_created_slot: 0,
                ..self
            }
        } else {
            Account { pending_remaining_q: (self.pending_remaining_q - take) as u128, ..self }
        }
    }

    /// Take `take` out of the scheduled bucket; an emptied bucket is cleared.
    pub open spec fn sched_taken(self, take: int) -> Account {
        if take == 0 {
            self
        } else if take == self.sched_remaining_q {
            Account {
                sched_remaining_q: 0,
                sched_present: 0,
                sched_anchor_q: 0,
                sched_start_slot: 0,
                sched_horizon: 0,
                sched_release_q: 0,
                ..self
            }
        } else {
            Account { sched_remaining_q: (self.sched_remaining_q - take) as u128, ..self }
        }
    }

    /// Lose `loss` of the reserve, newest first: the pending bucket, then the
    /// scheduled one.
    pub open spec fn reserve_lost(self, p: RiskParams, loss: u128) -> Result<Account, RiskError> {
        if !self.reserve_shape_ok(p) {
            Err(RiskError::CorruptState)
        } else if loss > self.reserved_pnl {
            Err(RiskError::CorruptState)
        } else {
            let from_pending = min_of(loss as int, self.pending_part());
            let a = self.pending_taken(from_pending).sched_taken(loss - from_pending);
            Ok(Account { reserved_pnl: (self.reserved_pnl - loss) as u128, ..a })
        }
    }

    /// How much of the scheduled bucket has matured in total by slot `now`: all of
    /// it once the horizon has passed, and a linear share before.
    pub open spec fn sched_matured(self, now: u64) -> int {
        let elapsed = now - self.sched_start_slot;
        if elapsed >= self.sched_horizon {
            self.sched_anchor_q as int
        } else {
            muldiv(self.sched_anchor_q as int, elapsed, self.sched_horizon as int)
        }
    }
}

impl EngineState {
    /// Reserve `add` more PnL of account `i` with horizon `h`.
    pub open spec fn append_reserve(self, i: int, add: u128, now: u64, h: u64) -> Result<EngineState, RiskError> {
        match self.accounts[i].reserve_appended(self.params, add, now, h) {
            Err(e) => Err(e),
            Ok(a) => Ok(self.with_account(i, a)),
        }
    }

    /// Lose reserved PnL of account `i`.
    pub open spec fn lose_reserve(self, i: int, loss: u128) -> Result<EngineState, RiskError> {
        match self.accounts[i].reserve_lost(self.params, loss) {
            Err(e) => Err(e),
            Ok(a) => Ok(self.with_account(i, a)),
        }
    }

    /// Which warmup horizon a fresh positive PnL of account `i` gets: the shorter
    /// one where the residual covers it on top of all matured PnL, and the longer
    /// one otherwise and from then on in this instruction.
    pub open spec fn admit_fresh(
        self,
        c: CtxState,
        i: int,
        fresh: int,
        h_min: u64,
        h_max: u64,
    ) -> Result<(CtxState, u64), RiskError> {
        if c.sticky.contains(i as u16) {
            Ok((c, h_max))
        } else {
            match u128_or(self.c_tot.v + self.insurance_fund.balance.v, RiskError::Overflow) {
                Err(e) => Err(e),
                Ok(senior) => {
                    if senior > self.vault.v {
                        Err(RiskError::CorruptState)
                    } else {
                        match u128_or(self.pnl_matured_pos_tot + fresh, RiskError::Overflow) {
                            Err(e) => Err(e),
                            Ok(claims) => {
                                let h = if claims <= self.vault.v - senior {
                                    h_min
                                } else {
                                    h_max
                                };
                                if h == h_max {
                                    match c.stick(i as u16) {
                                        Some(c2) => Ok((c2, h)),
                                        None => Err(RiskError::Overflow),
                                    }
                                } else {
                                    Ok((c, h))
                                }
                            },
                        }
                    }
                },
            }
        }
    }

    /// Mature the whole reserve of account `i` at once where the residual covers it
    /// on top of all matured PnL.
    pub open spec fn admit_outstanding(self, i: int) -> Result<EngineState, RiskError> {
        let a = self.accounts[i];
        if !self.is_live() {
            Ok(self)
        } else {
            if !a.reserve_shape_ok(self.params) {
                Err(RiskError::CorruptState)
            } else if a.reserved_pnl == 0 {
                Ok(self)
            } else {
                match u128_or(self.c_tot.v + self.insurance_fund.balance.v, RiskError::Overflow) {
                    Err(e) => Err(e),
                    Ok(senior) => {
                        if senior > self.vault.v {
                            Err(RiskError::CorruptState)
                        } else {
                            match u128_or(self.pnl_matured_pos_tot + a.reserved_pnl, RiskError::Overflow) {
                                Err(e) => Err(e),
                                Ok(matured) => {
                                    if matured > self.vault.v - senior {
                                        Ok(self)
                                    } else {
                                        if matured > self.pnl_pos_tot {
                                            Err(RiskError::CorruptState)
                                        } else {
                                            Ok(EngineState {
                                                pnl_matured_pos_tot: matured,
                                                ..self.with_account(i, a.without_reserve())
                                            })
                                        }
                                    }
                                },
                            }
                        }
                    },
                }
            }
        }
    }

    /// Release what has matured of the scheduled bucket of account `i` by the
    /// current slot. An emptied bucket makes room for the pending one.
    #[verifier::opaque]
    pub open spec fn advance_warmup(self, i: int) -> Result<EngineState, RiskError> {
        let a0 = self.accounts[i];
        if !a0.reserve_shape_ok(self.params) {
            Err(RiskError::CorruptState)
        } else if a0.reserved_pnl == 0 {
            Ok(self)
        } else {
            let a = a0.promoted_if_alone(self.current_slot);
            if a.sched_start_slot > self.current_slot {
                Err(RiskError::CorruptState)
            } else {
                let total = a.sched_matured(self.current_slot);
                if a.sched_release_q > total {
                    Err(RiskError::CorruptState)
                } else {
                    let release = min_of(a.sched_remaining_q as int, total - a.sched_release_q);
                    match u128_or(self.pnl_matured_pos_tot + release, RiskError::Overflow) {
                        Err(e) => Err(e),
                        Ok(matured) => {
                            let b = Account {
                                sched_remaining_q: (a.sched_remaining_q - release) as u128,
                                reserved_pnl: (a.reserved_pnl - release) as u128,
                                sched_release_q: total as u128,
                                ..a
                            };
                            let d = if b.sched_remaining_q == 0 {
                                let e = Account {
                                    sched_present: 0,
                                    sched_anchor_q: 0,
                                    sched_start_slot: 0,
                                    sched_horizon: 0,
                                    sched_release_q: 0,
                                    ..b
                                };
                                e.promoted_if_alone(self.current_slot)
                            } else {
                                b
                            };
                            if matured > self.pnl_pos_tot {
                                Err(RiskError::CorruptState)
                            } else {
                                Ok(EngineState { pnl_matured_pos_tot: matured, ..self.with_account(i, d) })
                            }
                        },
                    }
                }
            }
        }
    }
}

impl RiskEngine {
    /// Whether the reserve of an account is well shaped.
    pub(crate) fn validate_reserve_shape(&self, idx: usize) -> (r: Result<(), RiskError>)
        requires
            self.wf(),
            idx < MAX_ACCOUNTS,
        ensures
            r == (if self@.accounts[idx as int].reserve_shape_ok(self@.params) {
                    Ok::<(), RiskError>(())
                } else {
                    Err::<(), RiskError>(RiskError::CorruptState)
            }),
    {
        let a: Account = self.accounts[idx];
        if a.sched_present == 0 {
            if a.sched_remaining_q != 0 || a.sched_anchor_q != 0 || a.sched_start_slot != 0
                || a.sched_horizon != 0 || a.sched_release_q != 0 {
                return Err(RiskError::CorruptState);
            }
        } else {
            if a.sched_horizon == 0 {
                return Err(RiskError::CorruptState);
            }
            if a.sched_horizon < self.params.h_min {
                return Err(RiskError::CorruptState);
            }
            if a.sched_horizon > self.params.h_max {
                return Err(RiskError::CorruptState);
            }
            if a.sched_release_q > a.sched_anchor_q {
                return Err(RiskError::CorruptState);
            }
            let used: u128 = a.sched_remaining_q.checked_add(a.sched_release_q).ok_or(RiskError::CorruptState)?;
            if used > a.sched_anchor_q {
                return Err(RiskError::CorruptState);
            }
        }
        if a.sched_present != 0 && a.sched_remaining_q == 0 {
            return Err(RiskError::CorruptState);
        }
        if a.pending_present == 0 {
            if a.pending_remaining_q != 0 || a.pending_horizon != 0 || a.pending_created_slot != 0 {
                return Err(RiskError::CorruptState);
            }
        } else {
            if a.pending_horizon == 0 {
                return Err(RiskError::CorruptState);
            }
            if a.pending_horizon < self.params.h_min {
                return Err(RiskError::CorruptState);
            }
            if a.pending_horizon > self.params.h_max {
                return Err(RiskError::CorruptState);
            }
            if a.pending_remaining_q == 0 {
                return Err(RiskError::CorruptState);
            }
        }
        let sched_r: u128 = if a.sched_present != 0 {
            a.sched_remaining_q
        } else {
            0
        };
        let pend_r: u128 = if a.pending_present != 0 {
            a.pending_remaining_q
        } else {
            0
        };
        let total: u128 = sched_r.checked_add(pend_r).ok_or(RiskError::CorruptState)?;
        if total != a.reserved_pnl {
            return Err(RiskError::CorruptState);
        }
        let pos_pnl: u128 = if a.pnl > 0 {
            a.pnl as u128
        } else {
            0
        };
        if a.reserved_pnl > pos_pnl {
            return Err(RiskError::CorruptState);
        }
        Ok(())
    }

    /// Reserve more PnL of an account.
    pub(crate) fn append_or_route_new_reserve(
        &mut self,
        idx: usize,
        reserve_add: u128,
        now_slot: u64,
        h_lock: u64,
    ) -> (r: Result<(), RiskError>)
        requires
            old(self).wf(),
            idx < MAX_ACCOUNTS,
        ensures
            final(self).wf(),
            agrees_unit(old(self)@.append_reserve(idx as int, reserve_add, now_slot, h_lock), r, final(self)@),
    {
        self.validate_reserve_shape(idx)?;
        let mut a: Account = self.accounts[idx];
        if a.sched_present == 0 && a.pending_present != 0 {
            a.sched_present = 1;
            a.sched_remaining_q = a.pending_remaining_q;
            a.sched_anchor_q = a.pending_remaining_q;
            a.sched_start_slot = now_slot;
            a.sched_horizon = a.pending_horizon;
            a.sched_release_q = 0;
            a.pending_present = 0;
            a.pending_remaining_q = 0;
            a.pending_horizon = 0;
            a.pending_created_slot = 0;
        }
        if a.sched_present == 0 {
            a.sched_present = 1;
            a.sched_remaining_q = reserve_add;
            a.sched_anchor_q = reserve_add;
            a.sched_start_slot = now_slot;
            a.sched_horizon = h_lock;
            a.sched_release_q = 0;
        } else if a.pending_present == 0 && a.sched_start_slot == now_slot && a.sched_horizon == h_lock
            && a.sched_release_q == 0 {
            a.sched_remaining_q = a.sched_remaining_q.checked_add(reserve_add).ok_or(RiskError::Overflow)?;
            a.sched_anchor_q = a.sched_anchor_q.checked_add(reserve_add).ok_or(RiskError::Overflow)?;
        } else if a.pending_present == 0 {
            a.pending_present = 1;
            a.pending_remaining_q = reserve_add;
            a.pending_horizon = h_lock;
            a.pending_created_slot = now_slot;
        } else {
            a.pending_remaining_q = a.pending_remaining_q.checked_add(reserve_add).ok_or(RiskError::Overflow)?;
            if a.pending_horizon < h_lock {
                a.pending_horizon = h_lock;
            }
        }
        a.reserved_pnl = a.reserved_pnl.checked_add(reserve_add).ok_or(RiskError::Overflow)?;
        self.accounts.set(idx, a);
        Ok(())
    }

    /// Lose reserved PnL of an account, newest first.
    pub(crate) fn apply_reserve_loss_newest_first(
        &mut self,
        idx: usize,
        reserve_loss: u128,
    ) -> (r: Result<(), RiskError>)
        requires
            old(self).wf(),
            idx < MAX_ACCOUNTS,
        ensures
            final(self).wf(),
            agrees_unit(old(self)@.lose_reserve(idx as int, reserve_loss), r, final(self)@),
    {
        self.validate_reserve_shape(idx)?;
        let mut a: Account = self.accounts[idx];
        let pend_avail: u128 = if a.pending_present != 0 {
            a.pending_remaining_q
        } else {
            0
        };
        if reserve_loss > a.reserved_pnl {
            return Err(RiskError::CorruptState);
        }
        let take_pend: u128 = min_u128(reserve_loss, pend_avail);
        let take_sched: u128 = reserve_loss - take_pend;
        if take_pend > 0 {
            a.pending_remaining_q = a.pending_remaining_q - take_pend;
            if a.pending_remaining_q == 0 {
                a.pending_present = 0;
                a.pending_horizon = 0;
                a.pending_created_slot = 0;
            }
        }
        if take_sched > 0 {
            a.sched_remaining_q = a.sched_remaining_q - take_sched;
            if a.sched_remaining_q == 0 {
                a.sched_present = 0;
                a.sched_anchor_q = 0;
                a.sched_start_slot = 0;
                a.sched_horizon = 0;
                a.sched_release_q = 0;
            }
        }
        a.reserved_pnl = a.reserved_pnl - reserve_loss;
        self.accounts.set(idx, a);
        Ok(())
    }

    /// Clear the reserve of an account in a resolved market, where all positive PnL
    /// has matured.
    pub(crate) fn prepare_account_for_resolved_touch(&mut self, idx: usize)
        requires
            old(self).wf(),
            idx < MAX_ACCOUNTS,
        ensures
            final(self).wf(),
            final(self)@ == old(self)@.with_account(
                idx as int,
                old(self)@.accounts[idx as int].without_reserve(),
            ),
    {
        let mut a: Account = self.accounts[idx];
        a.sched_present = 0;
        a.sched_remaining_q = 0;
        a.sched_anchor_q = 0;
        a.sched_start_slot = 0;
        a.sched_horizon = 0;
        a.sched_release_q = 0;
        a.pending_present = 0;
        a.pending_remaining_q = 0;
        a.pending_horizon = 0;
        a.pending_created_slot = 0;
        a.reserved_pnl = 0;
        self.accounts.set(idx, a);
    }

    /// The warmup horizon of a fresh positive PnL.
    pub(crate) fn admit_fresh_reserve_h_lock(
        &self,
        idx: usize,
        fresh_positive_pnl: u128,
        ctx: &mut InstructionContext,
        admit_h_min: u64,
        admit_h_max: u64,
    ) -> (r: Result<u64, RiskError>)
        requires
            self.wf(),
            old(ctx).wf(),
            idx < MAX_ACCOUNTS,
        ensures
            final(ctx).wf(),
            final(ctx)@.touched == old(ctx)@.touched,
            match r {
                Ok(h) => self@.admit_fresh(
                    old(ctx)@,
                    idx as int,
                    fresh_positive_pnl as int,
                    admit_h_min,
                    admit_h_max,
                ) == Ok::<(CtxState, u64), RiskError>((final(ctx)@, h)),
                Err(e) => self@.admit_fresh(
                    old(ctx)@,
                    idx as int,
                    fresh_positive_pnl as int,
                    admit_h_min,
                    admit_h_max,
                ) == Err::<(CtxState, u64), RiskError>(e),
            },
    {
        if ctx.is_h_max_sticky(idx as u16) {
            return Ok(admit_h_max);
        }
        let senior: u128 = self.c_tot.v.checked_add(self.insurance_fund.balance.v).ok_or(RiskError::Overflow)?;
        let residual: u128 = self.vault.v.checked_sub(senior).ok_or(RiskError::CorruptState)?;
        let claims: u128 = self.pnl_matured_pos_tot.checked_add(fresh_positive_pnl).ok_or(RiskError::Overflow)?;
        let admitted: u64 = if claims <= residual {
            admit_h_min
        } else {
            admit_h_max
        };
        if admitted == admit_h_max {
            if !ctx.mark_h_max_sticky(idx as u16) {
                return Err(RiskError::Overflow);
            }
        }
        Ok(admitted)
    }

    /// Mature the whole reserve of an account where the residual covers it.
    pub(crate) fn admit_outstanding_reserve_on_touch(&mut self, idx: usize) -> (r: Result<(), RiskError>)
        requires
            old(self).wf(),
            idx < MAX_ACCOUNTS,
        ensures
            final(self).wf(),
            agrees_unit(old(self)@.admit_outstanding(idx as int), r, final(self)@),
    {
        if self.market_mode != MarketMode::Live {
            return Ok(());
        }
        self.validate_reserve_shape(idx)?;
        let a: Account = self.accounts[idx];
        let reserve_total: u128 = a.reserved_pnl;
        if reserve_total == 0 {
            return Ok(());
        }
        let senior: u128 = self.c_tot.v.checked_add(self.insurance_fund.balance.v).ok_or(RiskError::Overflow)?;
        let residual: u128 = self.vault.v.checked_sub(senior).ok_or(RiskError::CorruptState)?;
        let new_matured: u128 = self.pnl_matured_pos_tot.checked_add(reserve_total).ok_or(RiskError::Overflow)?;
        if new_matured > residual {
            return Ok(());
        }
        if new_matured > self.pnl_pos_tot {
            return Err(RiskError::CorruptState);
        }
        self.pnl_matured_pos_tot = new_matured;
        self.prepare_account_for_resolved_touch(idx);
        Ok(())
    }

    /// Release what has matured of the scheduled bucket.
    pub(crate) fn advance_profit_warmup(&mut self, idx: usize) -> (r: Result<(), RiskError>)
        requires
            old(self).wf(),
            idx < MAX_ACCOUNTS,
        ensures
            final(self).wf(),
            agrees_unit(old(self)@.advance_warmup(idx as int), r, final(self)@),
    {
        proof {
            reveal(EngineState::advance_warmup);
        }
        self.validate_reserve_shape(idx)?;
        let mut a: Account = self.accounts[idx];
        let now: u64 = self.current_slot;
        if a.reserved_pnl == 0 {
            return Ok(());
        }
        if a.sched_present == 0 && a.pending_present != 0 {
            a.sched_present = 1;
            a.sched_remaining_q = a.pending_remaining_q;
            a.sched_anchor_q = a.pending_remaining_q;
            a.sched_start_slot = now;
            a.sched_horizon = a.pending_horizon;
            a.sched_release_q = 0;
            a.pending_present = 0;
            a.pending_remaining_q = 0;
            a.pending_horizon = 0;
            a.pending_created_slot = 0;
        }
        if now < a.sched_start_slot {
            return Err(RiskError::CorruptState);
        }
        let elapsed: u64 = now - a.sched_start_slot;
        let sched_total: u128 = if elapsed >= a.sched_horizon {
            a.sched_anchor_q
        } else {
            proof {
                lemma_share_of_whole(a.sched_anchor_q as int, elapsed as int, a.sched_horizon as int);
            }
            mul_div_floor_u128(a.sched_anchor_q, elapsed as u128, a.sched_horizon as u128)
        };
        if sched_total < a.sched_release_q {
            return Err(RiskError::CorruptState);
        }
        let release: u128 = min_u128(a.sched_remaining_q, sched_total - a.sched_release_q);
        let matured: u128 = self.pnl_matured_pos_tot.checked_add(release).ok_or(RiskError::Overflow)?;
        a.sched_remaining_q = a.sched_remaining_q - release;
        a.reserved_pnl = a.reserved_pnl - release;
        a.sched_release_q = sched_total;
        if a.sched_remaining_q == 0 {
            a.sched_present = 0;
            a.sched_anchor_q = 0;
            a.sched_start_slot = 0;
            a.sched_horizon = 0;
            a.sched_release_q = 0;
            if a.pending_present != 0 {
                a.sched_present = 1;
                a.sched_remaining_q = a.pending_remaining_q;
                a.sched_anchor_q = a.pending_remaining_q;
                a.sched_start_slot = now;
                a.sched_horizon = a.pending_horizon;
                a.sched_release_q = 0;
                a.pending_present = 0;
                a.pending_remaining_q = 0;
                a.pending_horizon = 0;
                a.pending_created_slot = 0;
            }
        }
        if matured > self.pnl_pos_tot {
            return Err(RiskError::CorruptState);
        }
        self.pnl_matured_pos_tot = matured;
        self.accounts.set(idx, a);
        Ok(())
    }
}

/// A share `x / h` of `a`, with `x` below `h`, is at most `a`.
proof fn lemma_share_of_whole(a: int, x: int, h: int)
    requires
        a >= 0,
        0 <= x < h,
    ensures
        0 <= muldiv(a, x, h) <= a,
{
    assert(a * x <= a * h) by (nonlinear_arith)
        requires
            a >= 0,
            0 <= x < h,
        ;
    assert(a * x >= 0) by (nonlinear_arith)
        requires
            a >= 0,
            0 <= x,
        ;
    vstd::arithmetic::div_mod::lemma_div_is_ordered(a * x, a * h, h);
    vstd::arithmetic::div_mod::lemma_div_is_ordered(0, a * x, h);
    vstd::arithmetic::div_mod::lemma_div_multiples_vanish(a, h);
    assert(a * h == h * a) by (nonlinear_arith);
    assert(0int / h == 0) by (nonlinear_arith)
        requires
            h > 0,
        ;
}

} // verus!
