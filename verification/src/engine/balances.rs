//! Changes of one account's capital and PnL, with the aggregates that follow
//! them.

use vstd::prelude::*;
use crate::constants::{MAX_ACCOUNTS, MAX_ACCOUNT_POSITIVE_PNL, MAX_PNL_POS_TOT};
use crate::context::CtxState;
use crate::int128::U128;
use crate::model::{agrees_unit, u128_or, u64_or, EngineState};
use crate::types::{Account, InstructionContext, MarketMode, ReserveMode, RiskEngine, RiskError};
use crate::wide_math::{i128_clamp_pos, min_of, min_u128, pos_of};

verus! {

impl EngineState {
    /// Set the capital of account `i`, and the sum of all capital with it.
    pub open spec fn set_capital(self, i: int, new_capital: u128) -> Result<EngineState, RiskError> {
        let a = self.accounts[i];
        let total = self.c_tot.v + new_capital - a.capital.v;
        match u128_or(
            total,
            if new_capital >= a.capital.v {
                RiskError::Overflow
            } else {
                RiskError::CorruptState
            },
        ) {
            Err(e) => Err(e),
            Ok(c) => {
                Ok(
                    EngineState {
                        c_tot: U128 { v: c },
                        ..self.with_account(i, Account { capital: U128 { v: new_capital }, ..a })
                    },
                )
            },
        }
    }

    /// The number of accounts with negative PnL once one of them goes from `before`
    /// to `after`.
    pub open spec fn neg_count_after(self, before: int, after: int) -> Result<u64, RiskError> {
        if before < 0 && after >= 0 {
            u64_or(self.neg_pnl_account_count - 1, RiskError::CorruptState)
        } else if before >= 0 && after < 0 {
            u64_or(self.neg_pnl_account_count + 1, RiskError::CorruptState)
        } else {
            Ok(self.neg_pnl_account_count)
        }
    }

    /// Matured PnL is part of all positive PnL, and the reserve of account `i` part
    /// of its own.
    pub open spec fn pnl_bounds_hold(self, i: int) -> bool {
        &&& self.pnl_matured_pos_tot <= self.pnl_pos_tot
        &&& self.accounts[i].reserved_pnl <= pos_of(self.accounts[i].pnl as int)
    }

    /// The error that a reserve mode gives for a positive increase, if any.
    pub open spec fn increase_error(self, mode: ReserveMode) -> Option<RiskError> {
        match mode {
            ReserveMode::NoPositiveIncreaseAllowed => Some(RiskError::Overflow),
            ReserveMode::ImmediateReleaseResolvedOnly => if self.is_live() {
                Some(RiskError::Unauthorized)
            } else {
                None
            },
            ReserveMode::UseAdmissionPair(_, _) => if self.is_live() {
                None
            } else {
                Some(RiskError::Unauthorized)
            },
        }
    }

    /// Set the PnL of account `i`. The sum of positive PnL, its matured part, the
    /// count of negative accounts and the reserve follow: a positive increase is
    /// reserved as `mode` says, a decrease takes the reserve first.
    #[verifier::opaque]
    pub open spec fn set_pnl(
        self,
        i: int,
        new_pnl: i128,
        mode: ReserveMode,
        c: CtxState,
    ) -> Result<(EngineState, CtxState), RiskError> {
        let a = self.accounts[i];
        if new_pnl == i128::MIN {
            Err(RiskError::Overflow)
        } else if a.reserved_pnl > pos_of(a.pnl as int) {
            Err(RiskError::CorruptState)
        } else if !self.is_live() && a.reserved_pnl != 0 {
            Err(RiskError::CorruptState)
        } else if pos_of(new_pnl as int) > pos_of(a.pnl as int) {
            self.raise_pnl(i, new_pnl, mode, c)
        } else {
            match self.lower_pnl(i, new_pnl) {
                Err(e) => Err(e),
                Ok(s) => Ok((s, c)),
            }
        }
    }

    /// [`set_pnl`](Self::set_pnl) where the positive part grows.
    #[verifier::opaque]
    pub open spec fn raise_pnl(
        self,
        i: int,
        new_pnl: i128,
        mode: ReserveMode,
        c: CtxState,
    ) -> Result<(EngineState, CtxState), RiskError> {
        let a = self.accounts[i];
        let gain = pos_of(new_pnl as int) - pos_of(a.pnl as int);
        if self.increase_error(mode) is Some {
            Err(self.increase_error(mode)->0)
        } else if self.is_live() && new_pnl > MAX_ACCOUNT_POSITIVE_PNL {
            Err(RiskError::Overflow)
        } else {
            match u128_or(self.pnl_pos_tot + gain, RiskError::Overflow) {
                Err(e) => Err(e),
                Ok(tot) => {
                    if self.is_live() && tot > MAX_PNL_POS_TOT {
                        Err(RiskError::Overflow)
                    } else {
                        match self.neg_count_after(a.pnl as int, new_pnl as int) {
                            Err(e) => Err(e),
                            Ok(neg) => {
                                let s1 = EngineState {
                                    pnl_pos_tot: tot,
                                    neg_pnl_account_count: neg,
                                    ..self.with_account(i, Account { pnl: new_pnl, ..a })
                                };
                                match mode {
                                    ReserveMode::NoPositiveIncreaseAllowed => Err(RiskError::Overflow),
                                    ReserveMode::ImmediateReleaseResolvedOnly => {
                                        match s1.mature(gain) {
                                            Err(e) => Err(e),
                                            Ok(s2) => {
                                                if !s2.pnl_bounds_hold(i) {
                                                    Err(RiskError::CorruptState)
                                                } else {
                                                    Ok((s2, c))
                                                }
                                            },
                                        }
                                    },
                                    ReserveMode::UseAdmissionPair(h_min, h_max) => {
                                        match s1.admit_fresh(c, i, gain, h_min, h_max) {
                                            Err(e) => Err(e),
                                            Ok(admitted) => match if admitted.1 == 0 {
                                                s1.mature(gain)
                                            } else {
                                                s1.append_reserve(i, gain as u128, s1.current_slot, admitted.1)
                                            } {
                                                Err(e) => Err(e),
                                                Ok(s2) => {
                                                    if !s2.pnl_bounds_hold(i) {
                                                        Err(RiskError::CorruptState)
                                                    } else {
                                                        Ok((s2, admitted.0))
                                                    }
                                                },
                                            },
                                        }
                                    },
                                }
                            },
                        }
                    }
                },
            }
        }
    }

    /// Count `gain` as matured.
    pub open spec fn mature(self, gain: int) -> Result<EngineState, RiskError> {
        match u128_or(self.pnl_matured_pos_tot + gain, RiskError::Overflow) {
            Err(e) => Err(e),
            Ok(m) => Ok(EngineState { pnl_matured_pos_tot: m, ..self }),
        }
    }

    /// [`set_pnl`](Self::set_pnl) where the positive part does not grow.
    #[verifier::opaque]
    pub open spec fn lower_pnl(self, i: int, new_pnl: i128) -> Result<EngineState, RiskError> {
        let a = self.accounts[i];
        let new_pos = pos_of(new_pnl as int);
        let loss = pos_of(a.pnl as int) - new_pos;
        if self.is_live() && new_pos > MAX_ACCOUNT_POSITIVE_PNL {
            Err(RiskError::Overflow)
        } else {
            match u128_or(self.pnl_pos_tot - loss, RiskError::Overflow) {
                Err(e) => Err(e),
                Ok(tot) => {
                    let s1 = EngineState { pnl_pos_tot: tot, ..self };
                    let from_reserve = if self.is_live() {
                        min_of(loss, a.reserved_pnl as int)
                    } else {
                        0
                    };
                    match if from_reserve > 0 {
                        s1.lose_reserve(i, from_reserve as u128)
                    } else {
                        Ok(s1)
                    } {
                        Err(e) => Err(e),
                        Ok(s2) => match u128_or(s2.pnl_matured_pos_tot - (loss - from_reserve), RiskError::CorruptState) {
                            Err(e) => Err(e),
                            Ok(matured) => match s2.neg_count_after(a.pnl as int, new_pnl as int) {
                                Err(e) => Err(e),
                                Ok(neg) => {
                                    let s3 = EngineState {
                                        pnl_matured_pos_tot: matured,
                                        neg_pnl_account_count: neg,
                                        ..s2.with_account(i, Account { pnl: new_pnl, ..s2.accounts[i] })
                                    };
                                    let b = s3.accounts[i];
                                    if !(!(new_pos == 0 && self.is_live()) || (b.reserved_pnl == 0 && b.sched_present == 0
                                                && b.pending_present == 0)) {
                                        Err(RiskError::CorruptState)
                                    } else if !s3.pnl_bounds_hold(i) {
                                        Err(RiskError::CorruptState)
                                    } else {
                                        Ok(s3)
                                    }
                                },
                            },
                        },
                    }
                },
            }
        }
    }

    /// Set the PnL of account `i` where no positive increase is reserved.
    pub open spec fn set_pnl_plain(self, i: int, new_pnl: i128, mode: ReserveMode) -> Result<EngineState, RiskError> {
        match self.set_pnl(i, new_pnl, mode, CtxState::fresh(0, 0)) {
            Err(e) => Err(e),
            Ok(r) => Ok(r.0),
        }
    }

    /// Take `x` of the matured positive PnL of account `i`; its reserve stays.
    #[verifier::opaque]
    pub open spec fn consume_released(self, i: int, x: u128) -> Result<EngineState, RiskError> {
        let a = self.accounts[i];
        if x == 0 {
            Err(RiskError::CorruptState)
        } else if x + a.reserved_pnl > pos_of(a.pnl as int) {
            Err(RiskError::CorruptState)
        } else {
            match u128_or(self.pnl_pos_tot - x, RiskError::CorruptState) {
                Err(e) => Err(e),
                Ok(tot) => match u128_or(self.pnl_matured_pos_tot - x, RiskError::CorruptState) {
                    Err(e) => Err(e),
                    Ok(matured) => {
                        if matured > tot {
                            Err(RiskError::CorruptState)
                        } else {
                            Ok(
                                EngineState {
                                    pnl_pos_tot: tot,
                                    pnl_matured_pos_tot: matured,
                                    ..self.with_account(i, Account { pnl: (a.pnl - x) as i128, ..a })
                                },
                            )
                        }
                    },
                },
            }
        }
    }

    /// The matured part of the positive PnL of account `i`.
    pub open spec fn released(self, i: int) -> int {
        pos_of(pos_of(self.accounts[i].pnl as int) - self.accounts[i].reserved_pnl)
    }
}

impl RiskEngine {
    /// Set the capital of an account.
    pub(crate) fn set_capital(&mut self, idx: usize, new_capital: u128) -> (r: Result<(), RiskError>)
        requires
            old(self).wf(),
            idx < MAX_ACCOUNTS,
        ensures
            final(self).wf(),
            agrees_unit(old(self)@.set_capital(idx as int, new_capital), r, final(self)@),
            r is Err ==> final(self)@ == old(self)@,
    {
        let mut a: Account = self.accounts[idx];
        let before: u128 = a.capital.v;
        if new_capital >= before {
            self.c_tot = U128 { v: self.c_tot.v.checked_add(new_capital - before).ok_or(RiskError::Overflow)? };
        } else {
            self.c_tot = U128 { v: self.c_tot.v.checked_sub(before - new_capital).ok_or(RiskError::CorruptState)? };
        }
        a.capital = U128 { v: new_capital };
        self.accounts.set(idx, a);
        Ok(())
    }

    fn track_neg_count(&mut self, before: i128, after: i128) -> (r: Result<(), RiskError>)
        requires
            old(self).wf(),
        ensures
            final(self).wf(),
            match r {
                Ok(_) => old(self)@.neg_count_after(before as int, after as int) == Ok::<u64, RiskError>(
                    final(self)@.neg_pnl_account_count,
                ) && final(self)@ == (EngineState {
                        neg_pnl_account_count: final(self)@.neg_pnl_account_count,
                        ..old(self)@
                }),
                Err(e) => old(self)@.neg_count_after(before as int, after as int) == Err::<u64, RiskError>(e),
            },
    {
        if before < 0 && after >= 0 {
            self.neg_pnl_account_count = self.neg_pnl_account_count.checked_sub(1).ok_or(RiskError::CorruptState)?;
        } else if before >= 0 && after < 0 {
            self.neg_pnl_account_count = self.neg_pnl_account_count.checked_add(1).ok_or(RiskError::CorruptState)?;
        }
        Ok(())
    }

    fn check_pnl_bounds(&self, idx: usize) -> (r: Result<(), RiskError>)
        requires
            self.wf(),
            idx < MAX_ACCOUNTS,
        ensures
            r == (if self@.pnl_bounds_hold(idx as int) {
                    Ok::<(), RiskError>(())
                } else {
                    Err::<(), RiskError>(RiskError::CorruptState)
            }),
    {
        if self.pnl_matured_pos_tot > self.pnl_pos_tot {
            return Err(RiskError::CorruptState);
        }
        let pos: u128 = i128_clamp_pos(self.accounts[idx].pnl);
        if self.accounts[idx].reserved_pnl > pos {
            return Err(RiskError::CorruptState);
        }
        Ok(())
    }

    /// Set the PnL of an account. `ctx` is read and written only where `reserve_mode`
    /// is the admission pair.
    pub(crate) fn set_pnl_with_reserve(
        &mut self,
        idx: usize,
        new_pnl: i128,
        reserve_mode: ReserveMode,
        ctx: &mut InstructionContext,
    ) -> (r: Result<(), RiskError>)
        requires
            old(self).wf(),
            old(ctx).wf(),
            idx < MAX_ACCOUNTS,
        ensures
            final(self).wf(),
            final(ctx).wf(),
            final(ctx)@.touched == old(ctx)@.touched,
            match r {
                Ok(_) => old(self)@.set_pnl(idx as int, new_pnl, reserve_mode, old(ctx)@) == Ok::<
                (EngineState, CtxState),
                RiskError,
                >((final(self)@, final(ctx)@)),
                Err(e) => old(self)@.set_pnl(idx as int, new_pnl, reserve_mode, old(ctx)@) == Err::<
                (EngineState, CtxState),
                RiskError,
                >(e),
            },
    {
        proof {
            reveal(EngineState::set_pnl);
        }
        if new_pnl == i128::MIN {
            return Err(RiskError::Overflow);
        }
        let a: Account = self.accounts[idx];
        let old_pos: u128 = i128_clamp_pos(a.pnl);
        if a.reserved_pnl > old_pos {
            return Err(RiskError::CorruptState);
        }
        if self.market_mode != MarketMode::Live && a.reserved_pnl != 0 {
            return Err(RiskError::CorruptState);
        }
        let new_pos: u128 = i128_clamp_pos(new_pnl);
        if new_pos > old_pos {
            self.raise_pnl(idx, new_pnl, reserve_mode, ctx)
        } else {
            self.lower_pnl(idx, new_pnl)
        }
    }

    fn raise_pnl(
        &mut self,
        idx: usize,
        new_pnl: i128,
        reserve_mode: ReserveMode,
        ctx: &mut InstructionContext,
    ) -> (r: Result<(), RiskError>)
        requires
            old(self).wf(),
            old(ctx).wf(),
            idx < MAX_ACCOUNTS,
            pos_of(new_pnl as int) > pos_of(old(self)@.accounts[idx as int].pnl as int),
        ensures
            final(self).wf(),
            final(ctx).wf(),
            final(ctx)@.touched == old(ctx)@.touched,
            match r {
                Ok(_) => old(self)@.raise_pnl(idx as int, new_pnl, reserve_mode, old(ctx)@) == Ok::<
                (EngineState, CtxState),
                RiskError,
                >((final(self)@, final(ctx)@)),
                Err(e) => old(self)@.raise_pnl(idx as int, new_pnl, reserve_mode, old(ctx)@) == Err::<
                (EngineState, CtxState),
                RiskError,
                >(e),
            },
    {
        proof {
            reveal(EngineState::raise_pnl);
        }
        let mut a: Account = self.accounts[idx];
        let live: bool = self.market_mode == MarketMode::Live;
        let new_pos: u128 = i128_clamp_pos(new_pnl);
        let gain: u128 = new_pos - i128_clamp_pos(a.pnl);
        match reserve_mode {
            ReserveMode::NoPositiveIncreaseAllowed => {
                return Err(RiskError::Overflow);
            },
            ReserveMode::ImmediateReleaseResolvedOnly => {
                if live {
                    return Err(RiskError::Unauthorized);
                }
            },
            ReserveMode::UseAdmissionPair(_, _) => {
                if !live {
                    return Err(RiskError::Unauthorized);
                }
            },
        }
        if live && new_pos > MAX_ACCOUNT_POSITIVE_PNL {
            return Err(RiskError::Overflow);
        }
        let new_tot: u128 = self.pnl_pos_tot.checked_add(gain).ok_or(RiskError::Overflow)?;
        if live && new_tot > MAX_PNL_POS_TOT {
            return Err(RiskError::Overflow);
        }
        self.track_neg_count(a.pnl, new_pnl)?;
        self.pnl_pos_tot = new_tot;
        a.pnl = new_pnl;
        self.accounts.set(idx, a);
        match reserve_mode {
            ReserveMode::NoPositiveIncreaseAllowed => Err(RiskError::Overflow),
            ReserveMode::ImmediateReleaseResolvedOnly => {
                self.pnl_matured_pos_tot = self.pnl_matured_pos_tot.checked_add(gain).ok_or(RiskError::Overflow)?;
                self.check_pnl_bounds(idx)
            },
            ReserveMode::UseAdmissionPair(h_min, h_max) => {
                let h: u64 = self.admit_fresh_reserve_h_lock(idx, gain, ctx, h_min, h_max)?;
                if h == 0 {
                    self.pnl_matured_pos_tot = self.pnl_matured_pos_tot.checked_add(gain).ok_or(RiskError::Overflow)?;
                } else {
                    let now: u64 = self.current_slot;
                    self.append_or_route_new_reserve(idx, gain, now, h)?;
                }
                self.check_pnl_bounds(idx)
            },
        }
    }

    fn lower_pnl(&mut self, idx: usize, new_pnl: i128) -> (r: Result<(), RiskError>)
        requires
            old(self).wf(),
            idx < MAX_ACCOUNTS,
            pos_of(new_pnl as int) <= pos_of(old(self)@.accounts[idx as int].pnl as int),
            old(self)@.is_live() || old(self)@.accounts[idx as int].reserved_pnl == 0,
        ensures
            final(self).wf(),
            agrees_unit(old(self)@.lower_pnl(idx as int, new_pnl), r, final(self)@),
    {
        proof {
            reveal(EngineState::lower_pnl);
        }
        let before: i128 = self.accounts[idx].pnl;
        let live: bool = self.market_mode == MarketMode::Live;
        let new_pos: u128 = i128_clamp_pos(new_pnl);
        let loss: u128 = i128_clamp_pos(before) - new_pos;
        if live && new_pos > MAX_ACCOUNT_POSITIVE_PNL {
            return Err(RiskError::Overflow);
        }
        self.pnl_pos_tot = self.pnl_pos_tot.checked_sub(loss).ok_or(RiskError::Overflow)?;
        let from_reserve: u128 = if live {
            min_u128(loss, self.accounts[idx].reserved_pnl)
        } else {
            0
        };
        if from_reserve > 0 {
            self.apply_reserve_loss_newest_first(idx, from_reserve)?;
        }
        self.pnl_matured_pos_tot = self.pnl_matured_pos_tot.checked_sub(loss - from_reserve).ok_or(RiskError::CorruptState)?;
        self.track_neg_count(before, new_pnl)?;
        let mut a: Account = self.accounts[idx];
        a.pnl = new_pnl;
        self.accounts.set(idx, a);
        if new_pos == 0 && live {
            if a.reserved_pnl != 0 {
                return Err(RiskError::CorruptState);
            }
            if a.sched_present != 0 {
                return Err(RiskError::CorruptState);
            }
            if a.pending_present != 0 {
                return Err(RiskError::CorruptState);
            }
        }
        self.check_pnl_bounds(idx)
    }

    /// Set the PnL of an account where no positive increase is reserved.
    pub(crate) fn set_pnl_without_reserve(
        &mut self,
        idx: usize,
        new_pnl: i128,
        mode: ReserveMode,
    ) -> (r: Result<(), RiskError>)
        requires
            old(self).wf(),
            idx < MAX_ACCOUNTS,
        ensures
            final(self).wf(),
            agrees_unit(old(self)@.set_pnl_plain(idx as int, new_pnl, mode), r, final(self)@),
    {
        let mut ctx: InstructionContext = InstructionContext::new();
        self.set_pnl_with_reserve(idx, new_pnl, mode, &mut ctx)
    }

    /// Set the PnL of an account; a positive increase matures at once and is only
    /// allowed in a resolved market.
    pub(crate) fn set_pnl(&mut self, idx: usize, new_pnl: i128) -> (r: Result<(), RiskError>)
        requires
            old(self).wf(),
            idx < MAX_ACCOUNTS,
        ensures
            final(self).wf(),
            agrees_unit(
                old(self)@.set_pnl_plain(idx as int, new_pnl, ReserveMode::ImmediateReleaseResolvedOnly),
                r,
                final(self)@,
            ),
    {
        self.set_pnl_without_reserve(idx, new_pnl, ReserveMode::ImmediateReleaseResolvedOnly)
    }

    /// Take matured positive PnL of an account.
    pub(crate) fn consume_released_pnl(&mut self, idx: usize, x: u128) -> (r: Result<(), RiskError>)
        requires
            old(self).wf(),
            idx < MAX_ACCOUNTS,
        ensures
            final(self).wf(),
            agrees_unit(old(self)@.consume_released(idx as int, x), r, final(self)@),
    {
        proof {
            reveal(EngineState::consume_released);
        }
        if x == 0 {
            return Err(RiskError::CorruptState);
        }
        let mut a: Account = self.accounts[idx];
        let old_pos: u128 = i128_clamp_pos(a.pnl);
        let old_rel: u128 = old_pos.checked_sub(a.reserved_pnl).ok_or(RiskError::CorruptState)?;
        if x > old_rel {
            return Err(RiskError::CorruptState);
        }
        self.pnl_pos_tot = self.pnl_pos_tot.checked_sub(x).ok_or(RiskError::CorruptState)?;
        self.pnl_matured_pos_tot = self.pnl_matured_pos_tot.checked_sub(x).ok_or(RiskError::CorruptState)?;
        if self.pnl_matured_pos_tot > self.pnl_pos_tot {
            return Err(RiskError::CorruptState);
        }
        a.pnl = a.pnl - (x as i128);
        self.accounts.set(idx, a);
        Ok(())
    }

    /// The matured part of an account's positive PnL.
    pub fn released_pos(&self, idx: usize) -> (r: u128)
        requires
            self.wf(),
            idx < MAX_ACCOUNTS,
        ensures
            r == self@.released(idx as int),
    {
        let pos: u128 = i128_clamp_pos(self.accounts[idx].pnl);
        pos.saturating_sub(self.accounts[idx].reserved_pnl)
    }
}

} // verus!
