//! Positions: the effective quantity behind a stored basis, attaching a new
//! one, and settling what the side indices owe an account.

use vstd::prelude::*;
use crate::constants::{ADL_ONE, FUNDING_DEN, MAX_ACCOUNTS, MAX_POSITION_ABS_Q, POS_SCALE};
use crate::context::CtxState;
use crate::model::{agrees_unit, basis_ok, i128_or, u128_or, u64_or, EngineState};
use crate::types::{
    side_of, side_of_i128, Account, InstructionContext, ReserveMode, RiskEngine, RiskError, Side, SideMode,
};
use crate::wide_math::{
    abs_i128, abs_of, div_rem_u256, lemma_muldiv_bound, mul_div_floor_u128,
    mul_div_floor_u256_with_rem, muldiv, pow255, I256, U256,
};

verus! {

/// What the side indices owe a position: the quantity times the change of the
/// combined index `K * FUNDING_DEN + F`, per `den * FUNDING_DEN`, rounded down.
pub open spec fn index_pnl(abs_basis: int, k_diff: int, f_diff: int, den: int) -> int {
    (abs_basis * (k_diff * FUNDING_DEN + f_diff)) / (den * FUNDING_DEN)
}

/// [`index_pnl`] where its magnitude is at most `i128::MAX`.
pub open spec fn index_pnl_or_overflow(abs_basis: int, k_diff: int, f_diff: int, den: int) -> Result<i128, RiskError> {
    let v = index_pnl(abs_basis, k_diff, f_diff, den);
    if -i128::MAX <= v <= i128::MAX {
        Ok(v as i128)
    } else {
        Err(RiskError::Overflow)
    }
}

impl Account {
    /// The account without a position.
    pub open spec fn flat(self) -> Account {
        Account { adl_a_basis: ADL_ONE, adl_k_snap: 0, f_snap: 0, adl_epoch_snap: 0, ..self }
    }
}

impl EngineState {
    /// The current quantity behind the stored position of account `i`: the basis
    /// scaled by the side multiplier, rounded toward zero; nothing where the
    /// position belongs to an earlier epoch.
    pub open spec fn effective_pos(self, i: int) -> int {
        let a = self.accounts[i];
        let basis = a.position_basis_q as int;
        if basis == 0 {
            0
        } else {
            let s = side_of(basis)->0;
            if a.adl_epoch_snap != self.epoch_side(s) || a.adl_a_basis == 0 {
                0
            } else {
                let q = muldiv(abs_of(basis), self.a_side(s) as int, a.adl_a_basis as int);
                if basis < 0 {
                    -q
                } else {
                    q
                }
            }
        }
    }

    /// Store a new basis for account `i`, and count the stored positions of each
    /// side.
    pub open spec fn set_basis(self, i: int, new_basis: i128) -> Result<EngineState, RiskError> {
        let a = self.accounts[i];
        match match side_of(a.position_basis_q as int) {
            None => Ok(self),
            Some(Side::Long) => {
                match u64_or(self.stored_pos_count_long - 1, RiskError::CorruptState) {
                    Err(e) => Err(e),
                    Ok(n) => Ok(EngineState { stored_pos_count_long: n, ..self }),
                }
            },
            Some(Side::Short) => {
                match u64_or(self.stored_pos_count_short - 1, RiskError::CorruptState) {
                    Err(e) => Err(e),
                    Ok(n) => Ok(EngineState { stored_pos_count_short: n, ..self }),
                }
            },
        } {
            Err(e) => Err(e),
            Ok(s1) => match match side_of(new_basis as int) {
                None => Ok(s1),
                Some(Side::Long) => {
                    match u64_or(s1.stored_pos_count_long + 1, RiskError::CorruptState) {
                        Err(e) => Err(e),
                        Ok(n) => {
                            if n > s1.params.max_active_positions_per_side {
                                Err(RiskError::Overflow)
                            } else {
                                Ok(EngineState { stored_pos_count_long: n, ..s1 })
                            }
                        },
                    }
                },
                Some(Side::Short) => {
                    match u64_or(s1.stored_pos_count_short + 1, RiskError::CorruptState) {
                        Err(e) => Err(e),
                        Ok(n) => {
                            if n > s1.params.max_active_positions_per_side {
                                Err(RiskError::Overflow)
                            } else {
                                Ok(EngineState { stored_pos_count_short: n, ..s1 })
                            }
                        },
                    }
                },
            } {
                Err(e) => Err(e),
                Ok(s2) => Ok(s2.with_account(i, Account { position_basis_q: new_basis, ..a })),
            },
        }
    }

    /// Remove the stored position of account `i`.
    pub open spec fn clear_position(self, i: int) -> Result<EngineState, RiskError> {
        match self.set_basis(i, 0) {
            Err(e) => Err(e),
            Ok(s) => Ok(s.with_account(i, s.accounts[i].flat())),
        }
    }

    /// Raise the dust bound of a side.
    pub open spec fn add_dust(self, s: Side, amount: int) -> Result<EngineState, RiskError> {
        match u128_or(self.dust_bound(s) + amount, RiskError::Overflow) {
            Err(e) => Err(e),
            Ok(d) => Ok(self.with_dust_bound(s, d)),
        }
    }

    /// Whether replacing the position of account `i` leaves a fraction of a unit
    /// behind.
    pub open spec fn leaves_fraction(self, i: int) -> bool {
        let a = self.accounts[i];
        let basis = a.position_basis_q as int;
        &&& basis != 0
        &&& a.adl_epoch_snap == self.epoch_side(side_of(basis)->0)
        &&& a.adl_a_basis != 0
        &&& (abs_of(basis) * self.a_side(side_of(basis)->0)) % (a.adl_a_basis as int) != 0
    }

    /// Give account `i` the position `q` at the current side indices.
    #[verifier::opaque]
    pub open spec fn attach_position(self, i: int, q: i128) -> Result<EngineState, RiskError> {
        match if self.leaves_fraction(i) {
            self.add_dust(side_of(self.accounts[i].position_basis_q as int)->0, 1)
        } else {
            Ok(self)
        } {
            Err(e) => Err(e),
            Ok(s1) => {
                if q == 0 {
                    s1.clear_position(i)
                } else {
                    if abs_of(q as int) > MAX_POSITION_ABS_Q {
                        Err(RiskError::Overflow)
                    } else {
                        match s1.set_basis(i, q) {
                            Err(e) => Err(e),
                            Ok(s2) => {
                                let side = side_of(q as int)->0;
                                Ok(
                                    s2.with_account(
                                        i,
                                        Account {
                                            adl_a_basis: s2.a_side(side),
                                            adl_k_snap: s2.k_side(side),
                                            f_snap: s2.f_side(side),
                                            adl_epoch_snap: s2.epoch_side(side),
                                            ..s2.accounts[i]
                                        },
                                    ),
                                )
                            },
                        }
                    }
                }
            },
        }
    }

    /// Settle account `i` of a live market against its side: its PnL gets what the
    /// indices owe it. A position of the previous epoch ends, and so does one whose
    /// quantity has come down to nothing.
    #[verifier::opaque]
    pub open spec fn settle_side_effects(self, i: int, c: CtxState) -> Result<(EngineState, CtxState), RiskError> {
        let a = self.accounts[i];
        let basis = a.position_basis_q as int;
        if basis == 0 {
            Ok((self, c))
        } else {
            let side = side_of(basis)->0;
            let mode = ReserveMode::UseAdmissionPair(c.admit_h_min, c.admit_h_max);
            if a.adl_a_basis == 0 {
                Err(RiskError::CorruptState)
            } else if a.adl_epoch_snap == self.epoch_side(side) {
                match u128_or(a.adl_a_basis * POS_SCALE, RiskError::Overflow) {
                    Err(e) => Err(e),
                    Ok(den) => match index_pnl_or_overflow(
                        abs_of(basis),
                        self.k_side(side) - a.adl_k_snap,
                        self.f_side(side) - a.f_snap,
                        den as int,
                    ) {
                        Err(e) => Err(e),
                        Ok(delta) => match i128_or(a.pnl + delta, RiskError::Overflow) {
                            Err(e) => Err(e),
                            Ok(pnl) => match self.set_pnl(i, pnl, mode, c) {
                                Err(e) => Err(e),
                                Ok(r) => {
                                    let s1 = r.0;
                                    if self.effective_pos(i) == 0 {
                                        match s1.add_dust(side, 1) {
                                            Err(e) => Err(e),
                                            Ok(s2) => match s2.clear_position(i) {
                                                Err(e) => Err(e),
                                                Ok(s3) => Ok((s3, r.1)),
                                            },
                                        }
                                    } else {
                                        Ok(
                                            (
                                                s1.with_account(
                                                    i,
                                                    Account {
                                                        adl_k_snap: self.k_side(side),
                                                        f_snap: self.f_side(side),
                                                        adl_epoch_snap: self.epoch_side(side),
                                                        ..s1.accounts[i]
                                                    },
                                                ),
                                                r.1,
                                            ),
                                        )
                                    }
                                },
                            },
                        },
                    },
                }
            } else {
                if self.side_mode(side) != SideMode::ResetPending {
                    Err(RiskError::CorruptState)
                } else if a.adl_epoch_snap + 1 != self.epoch_side(side) {
                    Err(RiskError::CorruptState)
                } else {
                    match u128_or(a.adl_a_basis * POS_SCALE, RiskError::Overflow) {
                        Err(e) => Err(e),
                        Ok(den) => match index_pnl_or_overflow(
                            abs_of(basis),
                            self.k_epoch_start(side) - a.adl_k_snap,
                            self.f_epoch_start(side) - a.f_snap,
                            den as int,
                        ) {
                            Err(e) => Err(e),
                            Ok(delta) => match i128_or(a.pnl + delta, RiskError::Overflow) {
                                Err(e) => Err(e),
                                Ok(pnl) => {
                                    if pnl == i128::MIN {
                                        Err(RiskError::Overflow)
                                    } else {
                                        match u64_or(self.stale_count(side) - 1, RiskError::CorruptState) {
                                            Err(e) => Err(e),
                                            Ok(stale) => match self.set_pnl(i, pnl, mode, c) {
                                                Err(e) => Err(e),
                                                Ok(r) => match r.0.clear_position(i) {
                                                    Err(e) => Err(e),
                                                    Ok(s2) => Ok((s2.with_stale_count(side, stale), r.1)),
                                                },
                                            },
                                        }
                                    }
                                },
                            },
                        },
                    }
                }
            }
        }
    }
}

/// Bounds of the effective position.
pub proof fn lemma_effective_pos_bound(s: EngineState, i: int)
    requires
        s.wf(),
        0 <= i < MAX_ACCOUNTS,
    ensures
        abs_of(s.effective_pos(i)) <= 100_000_000_000_000_000_000_000_000_000,
{
    let a = s.accounts[i];
    let basis = a.position_basis_q as int;
    assert(basis_ok(a));
    if basis != 0 && a.adl_a_basis != 0 {
        let side = side_of(basis)->0;
        lemma_muldiv_bound(
            abs_of(basis),
            MAX_POSITION_ABS_Q as int,
            s.a_side(side) as int,
            ADL_ONE as int,
            a.adl_a_basis as int,
        );
    }
}

proof fn lemma_scaled_product(x: int, y: int, limit: int)
    requires
        0 <= x <= MAX_POSITION_ABS_Q,
        0 <= y <= limit,
    ensures
        0 <= x * y <= MAX_POSITION_ABS_Q * limit,
{
    assert(0 <= x * y <= MAX_POSITION_ABS_Q * limit) by (nonlinear_arith)
        requires
            0 <= x <= MAX_POSITION_ABS_Q,
            0 <= y <= limit,
        ;
}

/// The floor of a negative quotient, from the quotient of the magnitudes.
proof fn lemma_negative_floor(p: int, d: int)
    requires
        d > 0,
        p >= 0,
    ensures
        (-p) / d == (if p % d == 0 {
                -(p / d)
            } else {
                -(p / d) - 1
        }),
{
    let q = p / d;
    let m = p % d;
    vstd::arithmetic::div_mod::lemma_fundamental_div_mod(p, d);
    assert(d * q == q * d) by (nonlinear_arith);
    if m == 0 {
        assert(-p == (-q) * d) by (nonlinear_arith)
            requires
                p == q * d,
            ;
        vstd::arithmetic::div_mod::lemma_fundamental_div_mod_converse(-p, d, -q, 0);
    } else {
        assert(-p == (-q - 1) * d + (d - m)) by (nonlinear_arith)
            requires
                p == q * d + m,
            ;
        vstd::arithmetic::div_mod::lemma_fundamental_div_mod_converse(-p, d, -q - 1, d - m);
    }
}

impl RiskEngine {
    pub(crate) fn get_a_side(&self, s: Side) -> (r: u128)
        ensures
            r == self@.a_side(s),
    {
        match s {
            Side::Long => self.adl_mult_long,
            Side::Short => self.adl_mult_short,
        }
    }

    pub(crate) fn get_k_side(&self, s: Side) -> (r: i128)
        ensures
            r == self@.k_side(s),
    {
        match s {
            Side::Long => self.adl_coeff_long,
            Side::Short => self.adl_coeff_short,
        }
    }

    pub(crate) fn get_epoch_side(&self, s: Side) -> (r: u64)
        ensures
            r == self@.epoch_side(s),
    {
        match s {
            Side::Long => self.adl_epoch_long,
            Side::Short => self.adl_epoch_short,
        }
    }

    pub(crate) fn get_k_epoch_start(&self, s: Side) -> (r: i128)
        ensures
            r == self@.k_epoch_start(s),
    {
        match s {
            Side::Long => self.adl_epoch_start_k_long,
            Side::Short => self.adl_epoch_start_k_short,
        }
    }

    pub(crate) fn get_f_side(&self, s: Side) -> (r: i128)
        ensures
            r == self@.f_side(s),
    {
        match s {
            Side::Long => self.f_long_num,
            Side::Short => self.f_short_num,
        }
    }

    pub(crate) fn get_f_epoch_start(&self, s: Side) -> (r: i128)
        ensures
            r == self@.f_epoch_start(s),
    {
        match s {
            Side::Long => self.f_epoch_start_long_num,
            Side::Short => self.f_epoch_start_short_num,
        }
    }

    pub(crate) fn get_side_mode(&self, s: Side) -> (r: SideMode)
        ensures
            r == self@.side_mode(s),
    {
        match s {
            Side::Long => self.side_mode_long,
            Side::Short => self.side_mode_short,
        }
    }

    pub(crate) fn get_oi_eff(&self, s: Side) -> (r: u128)
        ensures
            r == self@.oi_eff(s),
    {
        match s {
            Side::Long => self.oi_eff_long_q,
            Side::Short => self.oi_eff_short_q,
        }
    }

    pub(crate) fn set_oi_eff(&mut self, s: Side, v: u128)
        requires
            old(self).wf(),
        ensures
            final(self).wf(),
            final(self)@ == old(self)@.with_oi_eff(s, v),
    {
        match s {
            Side::Long => {
                self.oi_eff_long_q = v;
            },
            Side::Short => {
                self.oi_eff_short_q = v;
            },
        }
    }

    pub(crate) fn set_side_mode(&mut self, s: Side, m: SideMode)
        requires
            old(self).wf(),
        ensures
            final(self).wf(),
            final(self)@ == old(self)@.with_side_mode(s, m),
    {
        match s {
            Side::Long => {
                self.side_mode_long = m;
            },
            Side::Short => {
                self.side_mode_short = m;
            },
        }
    }

    pub(crate) fn set_a_side(&mut self, s: Side, v: u128)
        requires
            old(self).wf(),
            v <= ADL_ONE,
        ensures
            final(self).wf(),
            final(self)@ == old(self)@.with_a_side(s, v),
    {
        match s {
            Side::Long => {
                self.adl_mult_long = v;
            },
            Side::Short => {
                self.adl_mult_short = v;
            },
        }
    }

    pub(crate) fn set_k_side(&mut self, s: Side, v: i128)
        requires
            old(self).wf(),
        ensures
            final(self).wf(),
            final(self)@ == old(self)@.with_k_side(s, v),
    {
        match s {
            Side::Long => {
                self.adl_coeff_long = v;
            },
            Side::Short => {
                self.adl_coeff_short = v;
            },
        }
    }

    pub(crate) fn get_stale_count(&self, s: Side) -> (r: u64)
        ensures
            r == self@.stale_count(s),
    {
        match s {
            Side::Long => self.stale_account_count_long,
            Side::Short => self.stale_account_count_short,
        }
    }

    pub(crate) fn set_stale_count(&mut self, s: Side, v: u64)
        requires
            old(self).wf(),
        ensures
            final(self).wf(),
            final(self)@ == old(self)@.with_stale_count(s, v),
    {
        match s {
            Side::Long => {
                self.stale_account_count_long = v;
            },
            Side::Short => {
                self.stale_account_count_short = v;
            },
        }
    }

    pub(crate) fn get_stored_pos_count(&self, s: Side) -> (r: u64)
        ensures
            r == self@.stored_pos_count(s),
    {
        match s {
            Side::Long => self.stored_pos_count_long,
            Side::Short => self.stored_pos_count_short,
        }
    }

    /// Raise the dust bound of a side.
    pub(crate) fn inc_phantom_dust_bound_by(&mut self, s: Side, amount_q: u128) -> (r: Result<(), RiskError>)
        requires
            old(self).wf(),
        ensures
            final(self).wf(),
            agrees_unit(old(self)@.add_dust(s, amount_q as int), r, final(self)@),
    {
        match s {
            Side::Long => {
                self.phantom_dust_bound_long_q = self.phantom_dust_bound_long_q.checked_add(amount_q).ok_or(RiskError::Overflow)?;
            },
            Side::Short => {
                self.phantom_dust_bound_short_q = self.phantom_dust_bound_short_q.checked_add(amount_q).ok_or(RiskError::Overflow)?;
            },
        }
        Ok(())
    }

    /// Raise the dust bound of a side by one unit.
    pub(crate) fn inc_phantom_dust_bound(&mut self, s: Side) -> (r: Result<(), RiskError>)
        requires
            old(self).wf(),
        ensures
            final(self).wf(),
            agrees_unit(old(self)@.add_dust(s, 1), r, final(self)@),
    {
        self.inc_phantom_dust_bound_by(s, 1)
    }

    /// The current quantity behind the stored position.
    pub fn effective_pos_q(&self, idx: usize) -> (r: i128)
        requires
            self.wf(),
            idx < MAX_ACCOUNTS,
        ensures
            r == self@.effective_pos(idx as int),
    {
        proof {
            lemma_effective_pos_bound(self@, idx as int);
        }
        let a: Account = self.accounts[idx];
        let basis: i128 = a.position_basis_q;
        if basis == 0 {
            return 0;
        }
        let side: Side = if basis > 0 {
            Side::Long
        } else {
            Side::Short
        };
        if a.adl_epoch_snap != self.get_epoch_side(side) {
            return 0;
        }
        let a_side: u128 = self.get_a_side(side);
        if a.adl_a_basis == 0 {
            return 0;
        }
        let q: u128 = mul_div_floor_u128(abs_i128(basis), a_side, a.adl_a_basis);
        if basis < 0 {
            -(q as i128)
        } else {
            q as i128
        }
    }

    /// Store a new basis for an account.
    pub(crate) fn set_position_basis_q(&mut self, idx: usize, new_basis: i128) -> (r: Result<(), RiskError>)
        requires
            old(self).wf(),
            idx < MAX_ACCOUNTS,
            abs_of(new_basis as int) <= MAX_POSITION_ABS_Q,
        ensures
            final(self).wf(),
            agrees_unit(old(self)@.set_basis(idx as int, new_basis), r, final(self)@),
    {
        let mut a: Account = self.accounts[idx];
        match side_of_i128(a.position_basis_q) {
            None => {},
            Some(Side::Long) => {
                self.stored_pos_count_long = self.stored_pos_count_long.checked_sub(1).ok_or(RiskError::CorruptState)?;
            },
            Some(Side::Short) => {
                self.stored_pos_count_short = self.stored_pos_count_short.checked_sub(1).ok_or(RiskError::CorruptState)?;
            },
        }
        match side_of_i128(new_basis) {
            None => {},
            Some(Side::Long) => {
                self.stored_pos_count_long = self.stored_pos_count_long.checked_add(1).ok_or(RiskError::CorruptState)?;
                if self.stored_pos_count_long > self.params.max_active_positions_per_side {
                    return Err(RiskError::Overflow);
                }
            },
            Some(Side::Short) => {
                self.stored_pos_count_short = self.stored_pos_count_short.checked_add(1).ok_or(RiskError::CorruptState)?;
                if self.stored_pos_count_short > self.params.max_active_positions_per_side {
                    return Err(RiskError::Overflow);
                }
            },
        }
        a.position_basis_q = new_basis;
        self.accounts.set(idx, a);
        Ok(())
    }

    /// Remove the stored position of an account.
    pub(crate) fn clear_position(&mut self, idx: usize) -> (r: Result<(), RiskError>)
        requires
            old(self).wf(),
            idx < MAX_ACCOUNTS,
        ensures
            final(self).wf(),
            agrees_unit(old(self)@.clear_position(idx as int), r, final(self)@),
    {
        self.set_position_basis_q(idx, 0)?;
        let mut a: Account = self.accounts[idx];
        a.adl_a_basis = ADL_ONE;
        a.adl_k_snap = 0;
        a.f_snap = 0;
        a.adl_epoch_snap = 0;
        self.accounts.set(idx, a);
        Ok(())
    }

    fn leaves_fraction(&self, idx: usize) -> (r: bool)
        requires
            self.wf(),
            idx < MAX_ACCOUNTS,
        ensures
            r == self@.leaves_fraction(idx as int),
    {
        let a: Account = self.accounts[idx];
        match side_of_i128(a.position_basis_q) {
            None => false,
            Some(side) => {
                if a.adl_epoch_snap != self.get_epoch_side(side) || a.adl_a_basis == 0 {
                    return false;
                }
                let (_q, m): (U256, U256) = mul_div_floor_u256_with_rem(
                    abs_i128(a.position_basis_q),
                    self.get_a_side(side),
                    a.adl_a_basis,
                );
                !m.is_zero()
            },
        }
    }

    /// Give an account a position at the current side indices.
    pub(crate) fn attach_effective_position(&mut self, idx: usize, new_eff_pos_q: i128) -> (r: Result<(), RiskError>)
        requires
            old(self).wf(),
            idx < MAX_ACCOUNTS,
        ensures
            final(self).wf(),
            agrees_unit(old(self)@.attach_position(idx as int, new_eff_pos_q), r, final(self)@),
    {
        proof {
            reveal(EngineState::attach_position);
        }
        if self.leaves_fraction(idx) {
            match side_of_i128(self.accounts[idx].position_basis_q) {
                Some(side) => {
                    self.inc_phantom_dust_bound(side)?;
                },
                None => {},
            }
        }
        if new_eff_pos_q == 0 {
            return self.clear_position(idx);
        }
        if abs_i128(new_eff_pos_q) > MAX_POSITION_ABS_Q {
            return Err(RiskError::Overflow);
        }
        let side: Side = if new_eff_pos_q > 0 {
            Side::Long
        } else {
            Side::Short
        };
        self.set_position_basis_q(idx, new_eff_pos_q)?;
        let mut a: Account = self.accounts[idx];
        a.adl_a_basis = self.get_a_side(side);
        a.adl_k_snap = self.get_k_side(side);
        a.f_snap = self.get_f_side(side);
        a.adl_epoch_snap = self.get_epoch_side(side);
        self.accounts.set(idx, a);
        Ok(())
    }

    /// What the side indices owe a position, in exact arithmetic with one floor.
    pub(crate) fn compute_kf_pnl_delta_wide(
        abs_basis: u128,
        k_snap: i128,
        k_now: I256,
        f_snap: i128,
        f_now: I256,
        den: u128,
    ) -> (r: Result<i128, RiskError>)
        requires
            abs_basis <= MAX_POSITION_ABS_Q,
            den > 0,
            k_now.wf(),
            f_now.wf(),
            abs_of(k_now@) <= 2 * (i128::MAX + 1),
            abs_of(f_now@) <= 2 * (i128::MAX + 1),
        ensures
            r == index_pnl_or_overflow(abs_basis as int, k_now@ - k_snap, f_now@ - f_snap, den as int),
    {
        let ghost scaled = den * FUNDING_DEN;
        assert(scaled > 0 && scaled < pow255()) by (nonlinear_arith)
            requires
                scaled == den * FUNDING_DEN,
                0 < den <= u128::MAX,
            ;
        let ghost k_diff_g = k_now@ - k_snap;
        let ghost f_diff_g = f_now@ - f_snap;
        let ghost comb = k_diff_g * FUNDING_DEN + f_diff_g;
        let k_diff: I256 = k_now.checked_sub(&I256::from_i128(k_snap)).ok_or(RiskError::Overflow)?;
        let k_scaled: I256 = k_diff.checked_mul_i256(&I256::from_u128(FUNDING_DEN)).ok_or(RiskError::Overflow)?;
        let f_diff: I256 = f_now.checked_sub(&I256::from_i128(f_snap)).ok_or(RiskError::Overflow)?;
        let combined: I256 = k_scaled.checked_add(&f_diff).ok_or(RiskError::Overflow)?;
        assert(combined@ == comb);
        let negative: bool = combined.is_negative();
        let abs_combined: U256 = combined.abs_u256();
        let den_wide: U256 = U256::from_u128(den).checked_mul(&U256::from_u128(FUNDING_DEN)).ok_or(RiskError::Overflow)?;
        proof {
            lemma_scaled_product(abs_basis as int, abs_combined@, 0x1_0000_0000_0000_0000_0000_0000_0000_0000_0000_0000_0000int);
        }
        let p: U256 = U256::from_u128(abs_basis).checked_mul(&abs_combined).ok_or(RiskError::Overflow)?;
        let (q, m): (U256, U256) = div_rem_u256(p, den_wide);
        proof {
            if negative {
                assert(abs_basis * comb == -(p@)) by (nonlinear_arith)
                    requires
                        p@ == abs_basis * abs_combined@,
                        abs_combined@ == -comb,
                    ;
                lemma_negative_floor(p@, scaled);
            }
        }
        let limit: u128 = 0x7fff_ffff_ffff_ffff_ffff_ffff_ffff_ffff;
        if negative {
            let mag: U256 = if m.is_zero() {
                q
            } else {
                q.checked_add(&U256::from_u128(1)).ok_or(RiskError::Overflow)?
            };
            let mag_u128: u128 = mag.try_into_u128().ok_or(RiskError::Overflow)?;
            if mag_u128 > limit {
                return Err(RiskError::Overflow);
            }
            Ok(-(mag_u128 as i128))
        } else {
            let q_u128: u128 = q.try_into_u128().ok_or(RiskError::Overflow)?;
            if q_u128 > limit {
                return Err(RiskError::Overflow);
            }
            Ok(q_u128 as i128)
        }
    }

    /// [`compute_kf_pnl_delta_wide`](Self::compute_kf_pnl_delta_wide) between stored
    /// index values.
    pub(crate) fn compute_kf_pnl_delta(
        abs_basis: u128,
        k_snap: i128,
        k_now: i128,
        f_snap: i128,
        f_now: i128,
        den: u128,
    ) -> (r: Result<i128, RiskError>)
        requires
            abs_basis <= MAX_POSITION_ABS_Q,
            den > 0,
        ensures
            r == index_pnl_or_overflow(abs_basis as int, k_now - k_snap, f_now - f_snap, den as int),
    {
        RiskEngine::compute_kf_pnl_delta_wide(
            abs_basis,
            k_snap,
            I256::from_i128(k_now),
            f_snap,
            I256::from_i128(f_now),
            den,
        )
    }

    /// Settle an account of a live market against its side.
    pub(crate) fn settle_side_effects_live(
        &mut self,
        idx: usize,
        ctx: &mut InstructionContext,
    ) -> (r: Result<(), RiskError>)
        requires
            old(self).wf(),
            old(ctx).wf(),
            idx < MAX_ACCOUNTS,
        ensures
            final(self).wf(),
            final(ctx).wf(),
            final(ctx)@.touched == old(ctx)@.touched,
            match r {
                Ok(_) => old(self)@.settle_side_effects(idx as int, old(ctx)@) == Ok::<
                (EngineState, CtxState),
                RiskError,
                >((final(self)@, final(ctx)@)),
                Err(e) => old(self)@.settle_side_effects(idx as int, old(ctx)@) == Err::<
                (EngineState, CtxState),
                RiskError,
                >(e),
            },
    {
        proof {
            reveal(EngineState::settle_side_effects);
            assert(basis_ok(self@.accounts[idx as int]));
        }
        let a: Account = self.accounts[idx];
        let basis: i128 = a.position_basis_q;
        if basis == 0 {
            return Ok(());
        }
        let side: Side = if basis > 0 {
            Side::Long
        } else {
            Side::Short
        };
        let epoch_side: u64 = self.get_epoch_side(side);
        if a.adl_a_basis == 0 {
            return Err(RiskError::CorruptState);
        }
        let abs_basis: u128 = abs_i128(basis);
        let mode: ReserveMode = ReserveMode::UseAdmissionPair(ctx.admit_h_min_shared, ctx.admit_h_max_shared);
        if a.adl_epoch_snap == epoch_side {
            let k_side: i128 = self.get_k_side(side);
            let f_side: i128 = self.get_f_side(side);
            let eff: i128 = self.effective_pos_q(idx);
            let den: u128 = a.adl_a_basis.checked_mul(POS_SCALE).ok_or(RiskError::Overflow)?;
            let delta: i128 = RiskEngine::compute_kf_pnl_delta(abs_basis, a.adl_k_snap, k_side, a.f_snap, f_side, den)?;
            let new_pnl: i128 = a.pnl.checked_add(delta).ok_or(RiskError::Overflow)?;
            self.set_pnl_with_reserve(idx, new_pnl, mode, ctx)?;
            if eff == 0 {
                self.inc_phantom_dust_bound(side)?;
                self.clear_position(idx)?;
            } else {
                let mut b: Account = self.accounts[idx];
                b.adl_k_snap = k_side;
                b.f_snap = f_side;
                b.adl_epoch_snap = epoch_side;
                self.accounts.set(idx, b);
            }
        } else {
            if self.get_side_mode(side) != SideMode::ResetPending {
                return Err(RiskError::CorruptState);
            }
            if a.adl_epoch_snap == u64::MAX || a.adl_epoch_snap + 1 != epoch_side {
                return Err(RiskError::CorruptState);
            }
            let k_end: i128 = self.get_k_epoch_start(side);
            let f_end: i128 = self.get_f_epoch_start(side);
            let den: u128 = a.adl_a_basis.checked_mul(POS_SCALE).ok_or(RiskError::Overflow)?;
            let delta: i128 = RiskEngine::compute_kf_pnl_delta(abs_basis, a.adl_k_snap, k_end, a.f_snap, f_end, den)?;
            let new_pnl: i128 = a.pnl.checked_add(delta).ok_or(RiskError::Overflow)?;
            if new_pnl == i128::MIN {
                return Err(RiskError::Overflow);
            }
            let new_stale: u64 = self.get_stale_count(side).checked_sub(1).ok_or(RiskError::CorruptState)?;
            self.set_pnl_with_reserve(idx, new_pnl, mode, ctx)?;
            self.clear_position(idx)?;
            self.set_stale_count(side, new_stale);
        }
        Ok(())
    }
}

} // verus!
