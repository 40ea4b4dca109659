//! What the engine guarantees to those who use it: principal that nobody can
//! touch, profit that has to wait, and losses that always find a place.

use vstd::prelude::*;
use crate::constants::{MAX_ACCOUNTS, MAX_VAULT_TVL, NIL_SLOT, POS_SCALE};
use crate::context::CtxState;
use crate::engine::books::{
    accrue_keeps_books, adl_keeps_books, capital_within_total, charge_keeps_books,
    end_keeps_books, finish_touched_keeps_books, position_keeps_books, swap_keeps_books,
};
use crate::engine::free_list::{slots_in_order, unused_slots_can_be_taken};
use crate::engine::laws::{
    later_keeps_books, lemma_settle_terminal, lemma_start, materialize_keeps_books,
    reconcile_law,
};
use crate::engine::open_interest::{
    finishing_keeps_interest, lemma_losses_are_apart, lemma_pnl_is_apart,
    lemma_reserves_are_apart,
};
use crate::engine::positions::{index_pnl_or_overflow, lemma_effective_pos_bound};
use crate::int128::U128;
use crate::model::{u128_or, EngineState};
use crate::types::{
    other_side, side_of, Account, LiquidationPolicy, ReserveMode, RiskError, Side, SideMode,
};
use crate::wide_math::{abs_of, min_of, muldiv, pos_of};

verus! {

/// The account holds no position, no loss and no fee debt.
pub open spec fn is_flat(a: Account) -> bool {
    a.position_basis_q == 0 && a.pnl >= 0 && a.fee_debt() == 0
}

/// Finishing a flat account never lowers its capital.
proof fn lemma_finish_flat(s: EngineState, i: int, whole: bool)
    requires
        0 <= i < s.accounts.len(),
        is_flat(s.accounts[i]),
    ensures
        s.finish_account(i, whole) matches Ok(t) ==> t.accounts[i].capital.v >= s.accounts[i].capital.v && is_flat(
            t.accounts[i],
        ),
{
    reveal(EngineState::finish_account);
    reveal(EngineState::consume_released);
    reveal(EngineState::sweep_fee_debt);
}

proof fn lemma_touch_flat(s: EngineState, i: int, c: CtxState)
    requires
        s.accounts.len() == MAX_ACCOUNTS,
        0 <= i < MAX_ACCOUNTS,
        is_flat(s.accounts[i]),
    ensures
        s.touch(i, c) matches Ok(r) ==> r.0.accounts[i].capital == s.accounts[i].capital && is_flat(r.0.accounts[i])
            && r.0.accounts.len() == MAX_ACCOUNTS,
{
    reveal(EngineState::touch);
    reveal(EngineState::advance_warmup);
    reveal(EngineState::settle_side_effects);
    reveal(EngineState::settle_losses);
    reveal(EngineState::resolve_flat_negative);
}

/// The principal of a flat account is protected: settling it, at whatever price
/// and whatever happened to others, never takes from its capital.
pub proof fn flat_capital_is_protected(
    s: EngineState,
    idx: u16,
    price: u64,
    now: u64,
    rate: i128,
    h_min: u64,
    h_max: u64,
)
    requires
        s.books(),
        s.in_use(idx as int),
        is_flat(s.accounts[idx as int]),
    ensures
        s.settle_account(idx, price, now, rate, h_min, h_max) matches Ok(t) ==> t.accounts[idx as int].capital.v
            >= s.accounts[idx as int].capital.v && is_flat(t.accounts[idx as int]),
{
    reveal(EngineState::settle_account);
    if let Ok(t) = s.settle_account(idx, price, now, rate, h_min, h_max) {
        let i = idx as int;
        accrue_keeps_books(s, now, price, rate);
        let s0 = s.accrue(now, price, rate)->Ok_0;
        assert(s0.accounts =~= s.accounts);
        lemma_touch_flat(s0, i, CtxState::fresh(h_min, h_max));
        lemma_start(s, i, price, now, rate, h_min, h_max);
        let r = s.start_live(i, price, now, rate, h_min, h_max)->Ok_0;
        reveal(EngineState::finish_touched);
        reveal_with_fuel(EngineState::finish_accounts, 2);
        lemma_finish_flat(r.0, i, r.0.is_whole());
        finish_touched_keeps_books(r.0, r.1);
        let s1 = r.0.finish_touched(r.1)->Ok_0;
        end_keeps_books(s1, r.1);
    }
}

/// The capital of account `i` lowered by `amount`, which leaves the vault.
pub open spec fn paid_out(s: EngineState, i: int, amount: u128) -> EngineState {
    EngineState {
        vault: U128 { v: (s.vault.v - amount) as u128 },
        c_tot: U128 { v: (s.c_tot.v - amount) as u128 },
        accounts: s.accounts.update(
            i,
            Account { capital: U128 { v: (s.accounts[i].capital.v - amount) as u128 }, ..s.accounts[i] },
        ),
        ..s
    }
}

/// Scheduling resets does not depend on balances.
proof fn lemma_schedule_ignores_balances(s: EngineState, i: int, amount: u128, c: CtxState)
    ensures
        s.schedule_resets(c) matches Ok(r) ==> paid_out(s, i, amount).schedule_resets(c) == Ok::<
        (EngineState, CtxState),
        RiskError,
        >((paid_out(r.0, i, amount), r.1)),
{
    reveal(EngineState::schedule_resets);
}

proof fn lemma_begin_ignores_balances(s: EngineState, i: int, amount: u128, side: Side)
    ensures
        s.begin_reset(side) matches Ok(t) ==> paid_out(s, i, amount).begin_reset(side) == Ok::<EngineState, RiskError>(
            paid_out(t, i, amount),
        ),
{
}

proof fn lemma_reopen_ignores_balances(s: EngineState, i: int, amount: u128)
    ensures
        paid_out(s, i, amount).reopen_ready() == paid_out(s.reopen_ready(), i, amount),
{
}

/// Beginning resets does not depend on balances.
proof fn lemma_finalize_ignores_balances(s: EngineState, i: int, amount: u128, c: CtxState)
    ensures
        s.finalize_resets(c) matches Ok(t) ==> paid_out(s, i, amount).finalize_resets(c) == Ok::<EngineState, RiskError>(
            paid_out(t, i, amount),
        ),
{
    reveal(EngineState::finalize_resets);
    let p = paid_out(s, i, amount);
    lemma_begin_ignores_balances(s, i, amount, Side::Long);
    let s1 = if c.pending_reset_long && s.side_mode_long != SideMode::ResetPending {
        s.begin_reset(Side::Long)->Ok_0
    } else {
        s
    };
    lemma_begin_ignores_balances(s1, i, amount, Side::Short);
    let s2 = if c.pending_reset_short && s1.side_mode_short != SideMode::ResetPending {
        s1.begin_reset(Side::Short)->Ok_0
    } else {
        s1
    };
    lemma_reopen_ignores_balances(s2, i, amount);
}

/// The end of an instruction does not depend on balances.
proof fn lemma_end_ignores_balances(s: EngineState, i: int, amount: u128, c: CtxState)
    requires
        amount <= s.c_tot.v,
        amount <= s.vault.v,
    ensures
        s.end_instruction(c) matches Ok(t) ==> paid_out(s, i, amount).end_instruction(c) == Ok::<EngineState, RiskError>(
            paid_out(t, i, amount),
        ),
{
    lemma_schedule_ignores_balances(s, i, amount, c);
    if let Ok(r) = s.schedule_resets(c) {
        lemma_finalize_ignores_balances(r.0, i, amount, r.1);
        lemma_end_touches_no_funds(s, c);
    }
}

/// Capital is senior: wherever an account without a position can be settled, it
/// can also take out its capital, all of it or down to a first deposit, and gets
/// exactly that. What others lost, and how far profits are covered, does not
/// matter.
pub proof fn flat_account_can_withdraw(
    s: EngineState,
    idx: u16,
    amount: u128,
    price: u64,
    now: u64,
    rate: i128,
    h_min: u64,
    h_max: u64,
)
    requires
        s.books(),
    ensures
        s.settle_account(idx, price, now, rate, h_min, h_max) matches Ok(t) ==> {
            let cap = t.accounts[idx as int].capital.v;
            t.accounts[idx as int].position_basis_q == 0 && amount <= cap && (amount == cap || cap - amount
                    >= s.params.min_initial_deposit.v) ==> s.withdraw(idx, amount, price, now, rate, h_min, h_max) == Ok::<
            EngineState,
            RiskError,
            >(paid_out(t, idx as int, amount))
        },
{
    reveal(EngineState::settle_account);
    reveal(EngineState::withdraw);
    if let Ok(t) = s.settle_account(idx, price, now, rate, h_min, h_max) {
        let i = idx as int;
        lemma_start(s, i, price, now, rate, h_min, h_max);
        let r = s.start_live(i, price, now, rate, h_min, h_max)->Ok_0;
        finish_touched_keeps_books(r.0, r.1);
        let s1 = r.0.finish_touched(r.1)->Ok_0;
        end_keeps_books(s1, r.1);
        assert(t.accounts[i] == s1.accounts[i]);
        let cap = s1.accounts[i].capital.v;
        if s1.accounts[i].position_basis_q == 0 && amount <= cap && (amount == cap || cap - amount
                >= s.params.min_initial_deposit.v) {
            capital_within_total(s1.accounts, i);
            assert(t.conserved());
            lemma_end_touches_no_funds(s1, r.1);
            assert(s1.withdrawal_margin_ok(i, amount, price));
            let left = (cap - amount) as u128;
            let s2 = s1.set_capital(i, left)->Ok_0;
            let s3 = EngineState { vault: U128 { v: (s2.vault.v - amount) as u128 }, ..s2 };
            assert(s3 == paid_out(s1, i, amount));
            lemma_end_ignores_balances(s1, i, amount, r.1);
        }
    }
}

proof fn lemma_end_touches_no_funds(s: EngineState, c: CtxState)
    ensures
        s.end_instruction(c) matches Ok(t) ==> t.c_tot == s.c_tot && t.vault == s.vault && t.insurance_fund
            == s.insurance_fund,
{
    reveal(EngineState::schedule_resets);
    reveal(EngineState::finalize_resets);
}

/// Profit has to wait: a gain that is booked with positive horizons goes into the
/// reserve, all of it. What the account can take out at once does not grow.
pub proof fn fresh_profit_is_reserved(s: EngineState, i: int, pnl: i128, h_min: u64, h_max: u64, c: CtxState)
    requires
        s.books(),
        s.in_use(i),
        s.is_live(),
        0 < h_min,
        0 < h_max,
        pos_of(pnl as int) > pos_of(s.accounts[i].pnl as int),
    ensures
        s.set_pnl(i, pnl, ReserveMode::UseAdmissionPair(h_min, h_max), c) matches Ok(r) ==> {
            &&& r.0.accounts[i].reserved_pnl == s.accounts[i].reserved_pnl + pos_of(pnl as int) - pos_of(
                s.accounts[i].pnl as int,
            )
            &&& r.0.released(i) == s.released(i)
            &&& r.0.pnl_matured_pos_tot == s.pnl_matured_pos_tot
        },
{
    reveal(EngineState::set_pnl);
    reveal(EngineState::raise_pnl);
}

/// A scheduled reserve matures little by little: nothing at its start, ever more
/// as time passes, and never more than there was.
pub proof fn warmup_is_gradual(a: Account, t1: u64, t2: u64)
    requires
        a.sched_start_slot <= t1 <= t2,
        0 < a.sched_horizon,
    ensures
        a.sched_matured(a.sched_start_slot) == 0,
        0 <= a.sched_matured(t1) <= a.sched_matured(t2) <= a.sched_anchor_q,
{
    let q = a.sched_anchor_q as int;
    let h = a.sched_horizon as int;
    let e1 = t1 - a.sched_start_slot;
    let e2 = t2 - a.sched_start_slot;
    assert(muldiv(q, 0, h) == 0) by (nonlinear_arith)
        requires
            0 < h,
        ;
    if e1 < h {
        lemma_share(q, e1, h);
    }
    if e2 < h {
        lemma_share(q, e2, h);
        assert(q * e1 <= q * e2) by (nonlinear_arith)
            requires
                0 <= q,
                e1 <= e2,
            ;
        vstd::arithmetic::div_mod::lemma_div_is_ordered(q * e1, q * e2, h);
    }
}

proof fn lemma_share(q: int, e: int, h: int)
    requires
        0 <= q,
        0 <= e < h,
    ensures
        0 <= muldiv(q, e, h) <= q,
{
    assert(0 <= q * e <= q * h) by (nonlinear_arith)
        requires
            0 <= q,
            0 <= e < h,
        ;
    vstd::arithmetic::div_mod::lemma_div_is_ordered(q * e, q * h, h);
    vstd::arithmetic::div_mod::lemma_div_multiples_vanish(q, h);
    vstd::arithmetic::div_mod::lemma_div_pos_is_pos(q * e, h);
    assert(q * h == h * q) by (nonlinear_arith);
}

/// A deficit always finds a place: whether the other side can take over a closed
/// quantity does not depend on how large the deficit is.
pub proof fn deficits_never_block(s: EngineState, c: CtxState, liq: Side, q: u128, d: u128)
    ensures
        s.enqueue_adl(c, liq, q, d) is Ok <==> s.enqueue_adl(c, liq, q, 0) is Ok,
{
    reveal(EngineState::enqueue_adl);
}

/// The insurance fund never pays out of its floor.
pub proof fn insurance_floor_is_kept(s: EngineState, loss: int)
    requires
        0 <= loss,
    ensures
        s.absorb_loss(loss).insurance_fund.balance.v >= min_of(
            s.insurance_fund.balance.v as int,
            s.params.insurance_floor.v as int,
        ),
        s.absorb_loss(loss).insurance_fund.balance.v <= s.insurance_fund.balance.v,
{
}

/// Accruing a second time in the same slot at the same price changes nothing.
pub proof fn accrual_is_idempotent(s: EngineState, now: u64, price: u64, rate: i128, again: i128)
    requires
        abs_of(again as int) <= s.params.max_abs_funding_e9_per_slot,
    ensures
        s.accrue(now, price, rate) matches Ok(t) ==> t.accrue(now, price, again) == Ok::<EngineState, RiskError>(t),
{
    reveal(EngineState::accrue);
}

/// Where both sides are live and equally scaled, what a price or a funding rate
/// gives one side it takes from the other.
pub proof fn accrual_is_symmetric(s: EngineState, now: u64, price: u64, rate: i128)
    requires
        s.oi_eff_long_q != 0,
        s.oi_eff_short_q != 0,
        s.adl_mult_long == s.adl_mult_short,
    ensures
        s.accrue(now, price, rate) matches Ok(t) ==> {
            &&& t.adl_coeff_long - s.adl_coeff_long == -(t.adl_coeff_short - s.adl_coeff_short)
            &&& t.f_long_num - s.f_long_num == -(t.f_short_num - s.f_short_num)
        },
{
    reveal(EngineState::accrue);
}

/// In a resolved market a change of PnL changes nothing else of the account.
proof fn lemma_resolved_pnl(s: EngineState, i: int, pnl: i128, mode: ReserveMode)
    requires
        0 <= i < s.accounts.len(),
        !s.is_live(),
    ensures
        s.set_pnl_plain(i, pnl, mode) matches Ok(t) ==> t.accounts == s.accounts.update(
            i,
            Account { pnl, ..s.accounts[i] },
        ) && t.market_mode == s.market_mode && t.current_slot == s.current_slot && t.resolved_slot == s.resolved_slot
            && t.used == s.used,
{
    reveal(EngineState::set_pnl);
    reveal(EngineState::raise_pnl);
    reveal(EngineState::lower_pnl);
    if let Ok(t) = s.set_pnl_plain(i, pnl, mode) {
        assert(t.accounts =~= s.accounts.update(i, Account { pnl, ..s.accounts[i] }));
    }
}

/// The account keeps no reserve.
pub open spec fn has_no_reserve(a: Account) -> bool {
    a == a.without_reserve()
}

proof fn lemma_terminal_keeps_reserve_empty(s: EngineState, i: int)
    requires
        s.books(),
        s.in_use(i),
        !s.is_live(),
        has_no_reserve(s.accounts[i]),
    ensures
        s.settle_terminal(i) matches Ok(t) ==> has_no_reserve(t.accounts[i]) && t.current_slot == s.current_slot
            && t.resolved_slot == s.resolved_slot,
{
    reveal(EngineState::settle_terminal);
    if let Ok(t) = s.settle_terminal(i) {
        let a = s.accounts[i];
        if a.position_basis_q != 0 {
            let side = side_of(a.position_basis_q as int)->0;
            let delta = index_pnl_or_overflow(
                abs_of(a.position_basis_q as int),
                s.k_epoch_start(side) + s.terminal_shift(side) - a.adl_k_snap,
                s.f_epoch_start(side) - a.f_snap,
                (a.adl_a_basis * POS_SCALE) as u128 as int,
            )->Ok_0;
            lemma_resolved_pnl(s, i, (a.pnl + delta) as i128, ReserveMode::ImmediateReleaseResolvedOnly);
        }
    }
}

proof fn lemma_losses_keep_reserve_empty(s: EngineState, i: int)
    requires
        0 <= i < s.accounts.len(),
        !s.is_live(),
        has_no_reserve(s.accounts[i]),
    ensures
        s.settle_losses(i) matches Ok(t) ==> has_no_reserve(t.accounts[i]) && t.current_slot == s.current_slot
            && t.resolved_slot == s.resolved_slot && t.market_mode == s.market_mode && t.accounts.len() == s.accounts.len(),
        s.resolve_flat_negative(i) matches Ok(t) ==> has_no_reserve(t.accounts[i]) && t.current_slot == s.current_slot
            && t.resolved_slot == s.resolved_slot,
{
    reveal(EngineState::settle_losses);
    reveal(EngineState::resolve_flat_negative);
    let a = s.accounts[i];
    if a.pnl < 0 {
        let pay = min_of(-(a.pnl as int), a.capital.v as int);
        if let Ok(t) = s.set_capital(i, (a.capital.v - pay) as u128) {
            lemma_resolved_pnl(t, i, (a.pnl + pay) as i128, ReserveMode::ImmediateReleaseResolvedOnly);
        }
        lemma_resolved_pnl(
            s.absorb_loss(-(a.pnl as int)),
            i,
            0,
            ReserveMode::ImmediateReleaseResolvedOnly,
        );
    }
}

/// A reconciled account keeps no reserve.
pub proof fn reconciled_has_no_reserve(s: EngineState, idx: u16)
    requires
        s.books(),
    ensures
        s.reconcile(idx) matches Ok(t) ==> t.accounts[idx as int].reserved_pnl == 0,
{
    reveal(EngineState::reconcile);
    if let Ok(t) = s.reconcile(idx) {
        let i = idx as int;
        let s1 = s.at_slot(s.resolved_slot).with_account(i, s.accounts[i].without_reserve());
        swap_keeps_books(s.at_slot(s.resolved_slot), s1, i);
        lemma_terminal_keeps_reserve_empty(s1, i);
        lemma_settle_terminal(s1, i);
        let s2 = s1.settle_terminal(i)->Ok_0;
        lemma_losses_keep_reserve_empty(s2, i);
        let s3 = s2.settle_losses(i)->Ok_0;
        lemma_losses_keep_reserve_empty(s3, i);
    }
}

/// Reconciling an account that is reconciled already changes nothing.
pub proof fn reconciling_is_idempotent(s: EngineState, idx: u16)
    requires
        s.books(),
    ensures
        s.reconcile(idx) matches Ok(t) ==> t.reconcile(idx) == Ok::<EngineState, RiskError>(t),
{
    reveal(EngineState::reconcile);
    if let Ok(t) = s.reconcile(idx) {
        let i = idx as int;
        reconcile_law(s, idx);
        let s1 = s.at_slot(s.resolved_slot).with_account(i, s.accounts[i].without_reserve());
        swap_keeps_books(s.at_slot(s.resolved_slot), s1, i);
        lemma_terminal_keeps_reserve_empty(s1, i);
        lemma_settle_terminal(s1, i);
        let s2 = s1.settle_terminal(i)->Ok_0;
        lemma_losses_keep_reserve_empty(s2, i);
        let s3 = s2.settle_losses(i)->Ok_0;
        lemma_losses_keep_reserve_empty(s3, i);
        let t1 = t.at_slot(t.resolved_slot).with_account(i, t.accounts[i].without_reserve());
        assert(t1.accounts =~= t.accounts);
        assert(t1 == t);
        reveal(EngineState::settle_terminal);
        reveal(EngineState::settle_losses);
        reveal(EngineState::resolve_flat_negative);
    }
}

/// What a keeper's partial close was checked for before, holds after it: a hint
/// that stood is not refused for leaving the account below maintenance margin.
pub proof fn standing_hint_is_not_refused(s: EngineState, idx: u16, q: u128, price: u64, c: CtxState)
    requires
        s.books(),
        s.wf(),
        s.in_use(idx as int),
        s.accounts[idx as int].pnl >= 0 || s.accounts[idx as int].capital.v == 0,
        s.accounts[idx as int].equity_maint() <= i128::MAX,
        s.effective_pos(idx as int) != 0,
        s.keeper_policy(
            idx as int,
            s.effective_pos(idx as int),
            Some(LiquidationPolicy::ExactPartial(q)),
            price,
        ) is Some,
    ensures
        s.liquidate_touched(idx, price, LiquidationPolicy::ExactPartial(q), c) != Err::<
        (EngineState, CtxState, bool),
        RiskError,
        >(RiskError::Undercollateralized),
{
    reveal(EngineState::liquidate_touched);
    let i = idx as int;
    let q0 = s.effective_pos(i);
    let left = partial_left(q0, q);
    let side = side_of(q0)->0;
    lemma_effective_pos_bound(s, i);
    lemma_partial_close(s, i, q, price);
    if let Ok(t) = s.close_quantity(i, left as i128, q as int, price) {
        lemma_adl_spares_own_side(t, c, side, q, 0);
        if let Ok(m) = t.enqueue_adl(c, side, q, 0) {
            let u = m.0;
            adl_keeps_books(t, c, side, q, 0);
            assert(u.accounts[i] == t.accounts[i]);
            assert(u.effective_pos(i) == left) by {
                let a = s.a_side(side) as int;
                vstd::arithmetic::div_mod::lemma_div_multiples_vanish(abs_of(left), a);
                assert(abs_of(left) * a == a * abs_of(left)) by (nonlinear_arith);
            }
            assert(u.mm_for(left, price as int) == s.mm_for(abs_of(q0) - q, price as int));
            assert(u.above_maint(u.accounts[i], i, price as int));
        }
    }
}

/// What a partial close makes of the account before the other side is told.
proof fn lemma_partial_close(s: EngineState, i: int, q: u128, price: u64)
    requires
        s.books(),
        s.wf(),
        s.in_use(i),
        s.accounts[i].pnl >= 0 || s.accounts[i].capital.v == 0,
        s.effective_pos(i) != 0,
        0 < q < abs_of(s.effective_pos(i)) <= i128::MAX,
    ensures
        ({
                let left = partial_left(s.effective_pos(i), q);
                let side = side_of(s.effective_pos(i))->0;
                match s.close_quantity(i, left as i128, q as int, price) {
                    Ok(t) => {
                        &&& t.params == s.params
                        &&& t.accounts[i].position_basis_q == left
                        &&& t.accounts[i].adl_a_basis == s.a_side(side)
                        &&& t.accounts[i].adl_epoch_snap == s.epoch_side(side)
                        &&& t.a_side(side) == s.a_side(side)
                        &&& t.epoch_side(side) == s.epoch_side(side)
                        &&& t.accounts[i].equity_maint() == s.accounts[i].equity_maint() - EngineState::fee_impact(
                            s.accounts[i],
                            s.liquidation_fee(q as int, price as int),
                        )
                        &&& s.keeps(t, set![i])
                    },
                    Err(e) => e != RiskError::Undercollateralized,
                }
        }),
{
    let left = partial_left(s.effective_pos(i), q);
    let fee = s.liquidation_fee(q as int, price as int) as u128;
    position_keeps_books(s, i, left as i128);
    reveal(EngineState::attach_position);
    reveal(EngineState::settle_losses);
    reveal(EngineState::charge_fee);
    if let Ok(s1) = s.attach_position(i, left as i128) {
        assert(s1.settle_losses(i) matches Ok(s2) ==> s2 == s1);
        charge_keeps_books(s1, i, fee);
    }
}

/// The position that is left after `q` of `q0` was closed.
pub open spec fn partial_left(q0: int, q: u128) -> int {
    if q0 > 0 {
        q0 - q
    } else {
        q0 + q
    }
}

/// Shrinking a side leaves the index and the epoch of the other side alone.
proof fn lemma_shrink_spares_other_side(s: EngineState, c: CtxState, side: Side, oi: int, oi_post: u128)
    ensures
        ({
                let liq = other_side(side);
                match s.shrink_side(c, side, oi, oi_post) {
                    Ok(r) => r.0.a_side(liq) == s.a_side(liq) && r.0.epoch_side(liq) == s.epoch_side(liq) && r.0.params
                        == s.params,
                    Err(e) => e != RiskError::Undercollateralized,
                }
        }),
{
}

/// Closing on one side leaves the index and the epoch of that side alone.
pub proof fn lemma_adl_spares_own_side(s: EngineState, c: CtxState, liq: Side, q: u128, d: u128)
    ensures
        match s.enqueue_adl(c, liq, q, d) {
            Ok(r) => r.0.a_side(liq) == s.a_side(liq) && r.0.epoch_side(liq) == s.epoch_side(liq) && r.0.params
                == s.params,
            Err(e) => e != RiskError::Undercollateralized,
        },
{
    reveal(EngineState::enqueue_adl);
    let opp = other_side(liq);
    if let Ok(left) = u128_or(s.oi_eff(liq) - q, RiskError::CorruptState) {
        let s1 = s.with_oi_eff(liq, left);
        let s2 = s1.absorb_loss(d as int);
        assert(s2.a_side(liq) == s.a_side(liq) && s2.epoch_side(liq) == s.epoch_side(liq) && s2.params == s.params);
        let oi = s2.oi_eff(opp);
        let s3 = s2.socialize(opp, d - s1.insured(d as int), oi as int);
        assert(s3.a_side(liq) == s.a_side(liq) && s3.epoch_side(liq) == s.epoch_side(liq) && s3.params == s.params);
        lemma_shrink_spares_other_side(s3, c, opp, oi as int, (oi - q) as u128);
    }
}

/// The safe conversion is the largest: up to it, converting profit of a flat
/// account leaves the account worth no less than nothing, and beyond it less.
pub proof fn safe_conversion_is_largest(s: EngineState, i: int, cap: int, num: int, den: int, x: int)
    requires
        0 <= num <= den,
        0 < den,
        0 <= x <= cap,
        0 < s.accounts[i].equity_maint() <= i128::MAX,
    ensures
        x <= s.safe_conversion(i, cap, num, den) <==> s.accounts[i].equity_maint() - x + muldiv(x, num, den) >= 0,
{
    let e = s.accounts[i].equity_maint();
    let y = muldiv(x, num, den);
    if num == den {
        assert(x * num / den == x) by {
            vstd::arithmetic::div_mod::lemma_div_multiples_vanish(x, den);
            assert(x * num == den * x) by (nonlinear_arith)
                requires
                    num == den,
                ;
        }
    } else {
        let gap = den - num;
        let z = muldiv(e, den, gap);
        // x <= z exactly where x * gap <= e * den.
        vstd::arithmetic::div_mod::lemma_fundamental_div_mod(e * den, gap);
        vstd::arithmetic::div_mod::lemma_fundamental_div_mod(x * num, den);
        let r = (e * den) % gap;
        let m = (x * num) % den;
        assert(0 <= r < gap);
        assert(0 <= m < den);
        assert((x <= z) == (x * gap <= e * den)) by (nonlinear_arith)
            requires
                e * den == gap * z + r,
                0 <= r < gap,
            ;
        // The value left, times den, is e * den - x * gap - m.
        assert((e - x + y) * den == e * den - x * gap - m) by (nonlinear_arith)
            requires
                x * num == den * y + m,
                gap == den - num,
            ;
        assert((e - x + y >= 0) == (x * gap <= e * den)) by (nonlinear_arith)
            requires
                (e - x + y) * den == e * den - x * gap - m,
                0 <= m < den,
            ;
    }
}

/// Open interest and side modes are the same in both.
pub open spec fn same_sides(s: EngineState, t: EngineState) -> bool {
    &&& t.oi_eff_long_q == s.oi_eff_long_q
    &&& t.oi_eff_short_q == s.oi_eff_short_q
    &&& t.side_mode_long == s.side_mode_long
    &&& t.side_mode_short == s.side_mode_short
}

/// A side that is to be drained and is empty does not stay so: the end of every
/// live instruction begins its reset.
pub proof fn drained_side_is_reset(s: EngineState, c: CtxState, side: Side)
    ensures
        s.end_instruction(c) matches Ok(t) ==> (t.side_mode(side) == SideMode::DrainOnly ==> t.oi_eff(side) != 0
                && s.side_mode(side) == SideMode::DrainOnly && s.oi_eff(side) != 0),
{
    reveal(EngineState::schedule_resets);
    reveal(EngineState::finalize_resets);
}

proof fn lemma_touch_spares_sides(s: EngineState, i: int, c: CtxState)
    requires
        s.accounts.len() == MAX_ACCOUNTS,
    ensures
        s.touch(i, c) matches Ok(r) ==> same_sides(s, r.0) && r.0.accounts.len() == s.accounts.len(),
{
    reveal(EngineState::touch);
    if let Ok(r) = s.touch(i, c) {
        lemma_reserves_are_apart(s, i);
        let s1 = s.admit_outstanding(i)->Ok_0;
        lemma_reserves_are_apart(s1, i);
        let s2 = s1.advance_warmup(i)->Ok_0;
        lemma_side_effects_spare_sides(s2, i, c.touch(i as u16)->0);
        let s3 = s2.settle_side_effects(i, c.touch(i as u16)->0)->Ok_0.0;
        lemma_losses_are_apart(s3, i);
        let s4 = s3.settle_losses(i)->Ok_0;
        lemma_losses_are_apart(s4, i);
    }
}

proof fn lemma_side_effects_spare_sides(s: EngineState, i: int, c: CtxState)
    requires
        0 <= i < s.accounts.len(),
    ensures
        s.settle_side_effects(i, c) matches Ok(r) ==> same_sides(s, r.0) && r.0.accounts.len() == s.accounts.len(),
{
    reveal(EngineState::settle_side_effects);
    assert forall|pnl: i128, mode: ReserveMode|
    (#[trigger] s.set_pnl(i, pnl, mode, c)) is Ok implies s.same_interest(s.set_pnl(i, pnl, mode, c)->Ok_0.0) by {
        lemma_pnl_is_apart(s, i, pnl, mode, c);
    }
}

/// Settling any account resets a side that is to be drained and is empty.
pub proof fn settling_resets_drained_side(
    s: EngineState,
    idx: u16,
    price: u64,
    now: u64,
    rate: i128,
    h_min: u64,
    h_max: u64,
    side: Side,
)
    requires
        s.books(),
        s.side_mode(side) == SideMode::DrainOnly,
        s.oi_eff(side) == 0,
    ensures
        s.settle_account(idx, price, now, rate, h_min, h_max) matches Ok(t) ==> t.side_mode(side) != SideMode::DrainOnly,
{
    reveal(EngineState::settle_account);
    if let Ok(t) = s.settle_account(idx, price, now, rate, h_min, h_max) {
        reveal(EngineState::accrue);
        let i = idx as int;
        let s1 = s.accrue(now, price, rate)->Ok_0;
        assert(same_sides(s, s1));
        lemma_touch_spares_sides(s1, i, CtxState::fresh(h_min, h_max));
        let r = s.start_live(i, price, now, rate, h_min, h_max)->Ok_0;
        lemma_start(s, i, price, now, rate, h_min, h_max);
        finishing_keeps_interest(r.0, r.1);
        let s2 = r.0.finish_touched(r.1)->Ok_0;
        drained_side_is_reset(s2, r.1, side);
    }
}

/// There is room as long as there is a free slot: a first deposit into the head
/// of the free list succeeds wherever the market is live and in order, the amount
/// is enough and the vault can take it.
pub proof fn newcomers_are_admitted(s: EngineState, amount: u128, now: u64)
    requires
        s.books(),
        s.conserved(),
        s.oi_balanced(),
        s.is_live(),
        s.current_slot <= now,
        s.last_market_slot <= now,
        s.free_head != NIL_SLOT,
        s.num_used_accounts < s.params.max_accounts,
        s.params.max_accounts <= MAX_ACCOUNTS,
        amount >= s.params.min_initial_deposit.v,
        s.vault.v + amount <= MAX_VAULT_TVL,
    ensures
        s.deposit(s.free_head, amount, now) matches Ok(t) && t.accounts[s.free_head as int].capital.v == amount,
{
    let i = s.free_head as int;
    unused_slots_can_be_taken(s);
    reveal(slots_in_order);
    assert(s.materialized_account_count == s.num_used_accounts);
    assert(s.materialize_at(s.free_head, now) is Ok);
    later_keeps_books(s, now);
    materialize_keeps_books(s.at_slot(now), s.free_head, now);
    reveal(EngineState::deposit);
    reveal(EngineState::settle_losses);
    reveal(EngineState::sweep_fee_debt);
    let s1 = s.materialize_at(s.free_head, now)->Ok_0;
    assert(s1.accounts[i].is_blank(now));
}

} // verus!
