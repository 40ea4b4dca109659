//! Losses are paid at once: after every operation, an account that still owes has
//! no capital left. So what is settled of a flat account is absorbed by insurance
//! alone.

use vstd::prelude::*;
use crate::constants::{ACCOUNTS_PER_CRANK, MAX_ACCOUNTS, MAX_PROTOCOL_FEE_ABS};
use crate::context::{touch_adds_one, CtxState};
use crate::engine::books::{
    accrue_keeps_books, adl_keeps_books, charge_keeps_books, end_keeps_books,
    finish_touched_keeps_books, position_keeps_books, settle_losses_keeps_books,
    settle_side_keeps_books, touch_keeps_books, touched_in_use, vacant, warmup_keeps_books,
};
use crate::engine::laws::{
    close_account_law, close_terminal_law, deposit_law, force_close_law, lemma_blank_is_blank,
    lemma_crank_run, lemma_liquidate_touched, lemma_start, reclaim_law, reconcile_law,
    settle_flat_law, trade_legs_law, withdraw_law,
};
use crate::engine::liquidation::{Candidate, CrankRun};
use crate::engine::open_interest::{
    lemma_losses_are_apart, lemma_lower_is_apart, lemma_pnl_is_apart, lemma_raise_is_apart,
};
use crate::engine::trade::{exact, trade_pnl_of};
use crate::int128::U128;
use crate::model::EngineState;
use crate::types::{
    side_of, Account, LiquidationPolicy, ReserveMode, ResolvedCloseResult, RiskError,
};
use crate::wide_math::{I256, abs_of, min_of, muldiv};

verus! {

/// An account that owes has no capital.
pub open spec fn loss_paid(a: Account) -> bool {
    a.pnl < 0 ==> a.capital.v == 0
}

impl EngineState {
    /// No account owes while it has capital.
    pub open spec fn losses_paid(self) -> bool {
        forall|j: int| 0 <= j < self.accounts.len() ==> loss_paid(#[trigger] self.accounts[j])
    }
}

proof fn lemma_raised(s: EngineState, i: int, pnl: i128, mode: ReserveMode, c: CtxState)
    requires
        0 <= i < s.accounts.len(),
    ensures
        s.raise_pnl(i, pnl, mode, c) matches Ok(r) ==> r.0.accounts[i].pnl == pnl && r.0.accounts[i].capital
            == s.accounts[i].capital,
{
    reveal(EngineState::raise_pnl);
}

proof fn lemma_lowered(s: EngineState, i: int, pnl: i128)
    requires
        0 <= i < s.accounts.len(),
    ensures
        s.lower_pnl(i, pnl) matches Ok(t) ==> t.accounts[i].pnl == pnl && t.accounts[i].capital == s.accounts[i].capital,
{
    reveal(EngineState::lower_pnl);
}

/// Setting the PnL of an account leaves its capital.
proof fn lemma_pnl_is_set(s: EngineState, i: int, pnl: i128, mode: ReserveMode)
    requires
        0 <= i < s.accounts.len(),
    ensures
        s.set_pnl_plain(i, pnl, mode) matches Ok(t) ==> t.accounts[i].pnl == pnl && t.accounts[i].capital
            == s.accounts[i].capital,
{
    reveal(EngineState::set_pnl);
    lemma_raised(s, i, pnl, mode, CtxState::fresh(0, 0));
    lemma_lowered(s, i, pnl);
}

/// After its losses were settled an account owes nothing or has nothing.
proof fn lemma_settled(s: EngineState, i: int)
    requires
        0 <= i < s.accounts.len(),
    ensures
        s.settle_losses(i) matches Ok(t) ==> loss_paid(t.accounts[i]),
        loss_paid(s.accounts[i]) ==> (s.resolve_flat_negative(i) matches Ok(t) ==> loss_paid(t.accounts[i])),
{
    reveal(EngineState::settle_losses);
    reveal(EngineState::resolve_flat_negative);
    let a = s.accounts[i];
    if a.pnl < 0 {
        let pay = min_of(-(a.pnl as int), a.capital.v as int);
        if let Ok(t) = s.set_capital(i, (a.capital.v - pay) as u128) {
            lemma_pnl_is_set(t, i, (a.pnl + pay) as i128, ReserveMode::ImmediateReleaseResolvedOnly);
        }
        lemma_pnl_is_set(s.absorb_loss(-(a.pnl as int)), i, 0, ReserveMode::ImmediateReleaseResolvedOnly);
    }
}

/// Fees leave an account without capital without.
proof fn lemma_charged(s: EngineState, i: int, fee: u128)
    requires
        0 <= i < s.accounts.len(),
        loss_paid(s.accounts[i]),
    ensures
        s.charge_fee(i, fee) matches Ok(r) ==> loss_paid(r.0.accounts[i]),
        s.sweep_fee_debt(i) matches Ok(t) ==> loss_paid(t.accounts[i]),
{
    reveal(EngineState::charge_fee);
    reveal(EngineState::sweep_fee_debt);
}

/// Where all accounts but some are the same, only those have to be looked at.
pub proof fn lemma_others_paid(s: EngineState, t: EngineState, who: Set<int>)
    requires
        s.losses_paid(),
        s.others_same(t, who),
        forall|j: int| 0 <= j < s.accounts.len() && who.contains(j) ==> loss_paid(#[trigger] t.accounts[j]),
    ensures
        t.losses_paid(),
{
    assert forall|j: int| 0 <= j < t.accounts.len() implies loss_paid(#[trigger] t.accounts[j]) by {
        if !who.contains(j) {
            assert(t.accounts[j] == s.accounts[j]);
            assert(loss_paid(s.accounts[j]));
        }
    }
}

proof fn lemma_finishing(s: EngineState, order: Seq<u16>, whole: bool, n: nat)
    requires
        s.accounts.len() == MAX_ACCOUNTS,
        s.losses_paid(),
        n <= order.len(),
        forall|k: int| 0 <= k < order.len() ==> s.in_use(#[trigger] order[k] as int),
    ensures
        s.finish_accounts(order, whole, n) matches Ok(t) ==> t.losses_paid() && t.accounts.len() == MAX_ACCOUNTS,
    decreases n,
{
    if n > 0 {
        lemma_finishing(s, order, whole, (n - 1) as nat);
        if let Ok(t) = s.finish_accounts(order, whole, n) {
            reveal(EngineState::finish_account);
            reveal(EngineState::consume_released);
            let u = s.finish_accounts(order, whole, (n - 1) as nat)->Ok_0;
            let i = order[n - 1] as int;
            assert(s.in_use(order[n - 1] as int));
            assert(loss_paid(u.accounts[i]));
            let a = u.accounts[i];
            let released = u.released(i);
            let v = if whole && a.position_basis_q == 0 && a.pnl > 0 && released > 0 {
                let m = u.consume_released(i, released as u128)->Ok_0;
                m.set_capital(i, (m.accounts[i].capital.v + released) as u128)->Ok_0
            } else {
                u
            };
            assert(loss_paid(v.accounts[i]));
            lemma_charged(v, i, 0);
            reveal(EngineState::sweep_fee_debt);
            assert(u.others_same(t, set![i]));
            lemma_others_paid(u, t, set![i]);
        }
    }
}

/// The end of a live instruction.
proof fn lemma_ended(s: EngineState, c: CtxState)
    requires
        s.books(),
        s.losses_paid(),
        touched_in_use(s, c),
    ensures
        s.finish_touched(c) matches Ok(s1) ==> s1.books() && s1.losses_paid() && s1.accounts.len() == MAX_ACCOUNTS && (
            s1.end_instruction(c) matches Ok(t) ==> t.losses_paid()),
{
    if let Ok(s1) = s.finish_touched(c) {
        reveal(EngineState::finish_touched);
        lemma_finishing(s, c.touched, s.is_whole(), c.touched.len());
        finish_touched_keeps_books(s, c);
        lemma_end(s1, c);
    }
}

proof fn lemma_end(s: EngineState, c: CtxState)
    requires
        s.books(),
        s.losses_paid(),
    ensures
        s.end_instruction(c) matches Ok(t) ==> t.losses_paid(),
{
    end_keeps_books(s, c);
    if let Ok(t) = s.end_instruction(c) {
        lemma_others_paid(s, t, Set::empty());
    }
}

/// Touching an account leaves losses paid.
pub proof fn lemma_touched(s: EngineState, i: int, c: CtxState)
    requires
        s.books(),
        s.losses_paid(),
    ensures
        s.touch(i, c) matches Ok(r) ==> r.0.losses_paid(),
{
    touch_keeps_books(s, i, c);
    if let Ok(r) = s.touch(i, c) {
        reveal(EngineState::touch);
        let c1 = c.touch(i as u16)->0;
        let s3 = s.admit_outstanding(i)->Ok_0.advance_warmup(i)->Ok_0.settle_side_effects(i, c1)->Ok_0.0;
        lemma_touch_len(s, i, c1);
        lemma_settled(s3, i);
        let s4 = s3.settle_losses(i)->Ok_0;
        lemma_losses_are_apart(s3, i);
        lemma_settled(s4, i);
        lemma_others_paid(s, r.0, set![i]);
    }
}

/// The first steps of a touch keep the number of accounts.
proof fn lemma_touch_len(s: EngineState, i: int, c: CtxState)
    requires
        s.books(),
        s.in_use(i),
        s.is_live(),
    ensures
        s.admit_outstanding(i) matches Ok(s1) ==> (s1.advance_warmup(i) matches Ok(s2) ==> (s2.settle_side_effects(i, c)
                matches Ok(r) ==> r.0.accounts.len() == MAX_ACCOUNTS)),
{
    if let Ok(s1) = s.admit_outstanding(i) {
        warmup_keeps_books(s, i);
        if let Ok(s2) = s1.advance_warmup(i) {
            warmup_keeps_books(s1, i);
            settle_side_keeps_books(s2, i, c);
        }
    }
}

/// The common start of a live instruction leaves losses paid.
pub proof fn lemma_started(s: EngineState, i: int, price: u64, now: u64, rate: i128, h_min: u64, h_max: u64)
    requires
        s.books(),
        s.losses_paid(),
    ensures
        s.start_live(i, price, now, rate, h_min, h_max) matches Ok(r) ==> r.0.losses_paid() && r.0.books()
            && touched_in_use(r.0, r.1) && r.0.in_use(i),
{
    if let Ok(r) = s.start_live(i, price, now, rate, h_min, h_max) {
        accrue_keeps_books(s, now, price, rate);
        let s1 = s.accrue(now, price, rate)->Ok_0;
        lemma_others_paid(s, s1, Set::empty());
        lemma_touched(s1, i, CtxState::fresh(h_min, h_max));
        lemma_start(s, i, price, now, rate, h_min, h_max);
    }
}

/// A deposit leaves losses paid.
pub proof fn deposit_leaves_losses_paid(s: EngineState, idx: u16, amount: u128, now: u64)
    requires
        s.books(),
        s.losses_paid(),
    ensures
        s.deposit(idx, amount, now) matches Ok(t) ==> t.losses_paid(),
{
    if let Ok(t) = s.deposit(idx, amount, now) {
        deposit_law(s, idx, amount, now);
        reveal(EngineState::deposit);
        let i = idx as int;
        let s1 = if s.in_use(i) {
            s
        } else {
            s.materialize_at(idx, now)->Ok_0
        };
        let s2 = EngineState { current_slot: now, vault: U128 { v: (s.vault.v + amount) as u128 }, ..s1 };
        let s3 = s2.set_capital(i, (s2.accounts[i].capital.v + amount) as u128)->Ok_0;
        lemma_settled(s3, i);
        lemma_losses_are_apart(s3, i);
        let s4 = s3.settle_losses(i)->Ok_0;
        lemma_charged(s4, i, 0);
        lemma_others_paid(s, t, set![i]);
    }
}

/// A withdrawal leaves losses paid.
pub proof fn withdraw_leaves_losses_paid(
    s: EngineState,
    idx: u16,
    amount: u128,
    price: u64,
    now: u64,
    rate: i128,
    h_min: u64,
    h_max: u64,
)
    requires
        s.books(),
        s.losses_paid(),
    ensures
        s.withdraw(idx, amount, price, now, rate, h_min, h_max) matches Ok(t) ==> t.losses_paid(),
{
    if let Ok(t) = s.withdraw(idx, amount, price, now, rate, h_min, h_max) {
        withdraw_law(s, idx, amount, price, now, rate, h_min, h_max);
        reveal(EngineState::withdraw);
        let i = idx as int;
        lemma_started(s, i, price, now, rate, h_min, h_max);
        let r = s.start_live(i, price, now, rate, h_min, h_max)->Ok_0;
        lemma_ended(r.0, r.1);
        let s1 = r.0.finish_touched(r.1)->Ok_0;
        assert(loss_paid(s1.accounts[i]));
        let s2 = s1.set_capital(i, (s1.accounts[i].capital.v - amount) as u128)->Ok_0;
        let s3 = EngineState { vault: U128 { v: (s2.vault.v - amount) as u128 }, ..s2 };
        lemma_end_accounts(s3, r.1);
        lemma_others_paid(s, t, set![i]);
    }
}

/// The end of an instruction changes no account.
proof fn lemma_end_accounts(s: EngineState, c: CtxState)
    ensures
        s.end_instruction(c) matches Ok(t) ==> t.accounts == s.accounts,
        s.schedule_resets(c) matches Ok(r) ==> r.0.accounts == s.accounts,
        s.finalize_resets(c) matches Ok(t) ==> t.accounts == s.accounts,
{
    reveal(EngineState::schedule_resets);
    reveal(EngineState::finalize_resets);
}

/// Settling an account leaves losses paid.
pub proof fn settle_account_leaves_losses_paid(
    s: EngineState,
    idx: u16,
    price: u64,
    now: u64,
    rate: i128,
    h_min: u64,
    h_max: u64,
)
    requires
        s.books(),
        s.losses_paid(),
    ensures
        s.settle_account(idx, price, now, rate, h_min, h_max) matches Ok(t) ==> t.losses_paid(),
{
    reveal(EngineState::settle_account);
    if let Ok(t) = s.settle_account(idx, price, now, rate, h_min, h_max) {
        lemma_started(s, idx as int, price, now, rate, h_min, h_max);
        let r = s.start_live(idx as int, price, now, rate, h_min, h_max)->Ok_0;
        lemma_ended(r.0, r.1);
    }
}

/// A conversion leaves losses paid.
pub proof fn convert_leaves_losses_paid(
    s: EngineState,
    idx: u16,
    x: u128,
    price: u64,
    now: u64,
    rate: i128,
    h_min: u64,
    h_max: u64,
)
    requires
        s.books(),
        s.losses_paid(),
    ensures
        s.convert_released(idx, x, price, now, rate, h_min, h_max) matches Ok(t) ==> t.losses_paid(),
{
    if let Ok(t) = s.convert_released(idx, x, price, now, rate, h_min, h_max) {
        reveal(EngineState::convert_released);
        let i = idx as int;
        lemma_started(s, i, price, now, rate, h_min, h_max);
        let r = s.start_live(i, price, now, rate, h_min, h_max)->Ok_0;
        let s1 = r.0;
        reveal(EngineState::consume_released);
        let s2 = s1.consume_released(i, x)->Ok_0;
        assert(s2.accounts[i].pnl >= 0);
        let s3 = s2.set_capital(
            i,
            (s2.accounts[i].capital.v + muldiv(x as int, s1.haircut().0, s1.haircut().1)) as u128,
        )->Ok_0;
        lemma_charged(s3, i, 0);
        let s4 = s3.sweep_fee_debt(i)->Ok_0;
        reveal(EngineState::sweep_fee_debt);
        assert(s1.others_same(s4, set![i]));
        lemma_others_paid(s1, s4, set![i]);
        reveal(EngineState::finish_touched);
        lemma_finishing(s4, r.1.touched, s4.is_whole(), r.1.touched.len());
        let s5 = s4.finish_touched(r.1)->Ok_0;
        lemma_end_accounts(s5, r.1);
    }
}

/// A liquidation of a touched account leaves losses paid.
proof fn lemma_liquidated(s: EngineState, idx: u16, price: u64, policy: LiquidationPolicy, c: CtxState)
    requires
        s.books(),
        s.losses_paid(),
    ensures
        s.liquidate_touched(idx, price, policy, c) matches Ok(r) ==> r.0.losses_paid(),
{
    if let Ok(r) = s.liquidate_touched(idx, price, policy, c) {
        lemma_liquidate_touched(s, idx, price, policy, c);
        reveal(EngineState::liquidate_touched);
        let i = idx as int;
        if r.2 {
            let q0 = s.effective_pos(i);
            let q = match policy {
                LiquidationPolicy::ExactPartial(q) => q as int,
                LiquidationPolicy::FullClose => abs_of(q0),
            };
            let left = match policy {
                LiquidationPolicy::ExactPartial(q) => if q0 > 0 {
                    q0 - q
                } else {
                    q0 + q
                },
                LiquidationPolicy::FullClose => 0,
            };
            let s1 = s.attach_position(i, left as i128)->Ok_0;
            position_keeps_books(s, i, left as i128);
            lemma_settled(s1, i);
            settle_losses_keeps_books(s1, i);
            let s2 = s1.settle_losses(i)->Ok_0;
            let fee = s2.liquidation_fee(q, price as int) as u128;
            lemma_charged(s2, i, fee);
            charge_keeps_books(s2, i, fee);
            let t = s2.charge_fee(i, fee)->Ok_0.0;
            let d = match policy {
                LiquidationPolicy::ExactPartial(_) => 0,
                LiquidationPolicy::FullClose => t.deficit(i) as u128,
            };
            let side = side_of(q0)->0;
            adl_keeps_books(t, c, side, q as u128, d);
            let u = t.enqueue_adl(c, side, q as u128, d)->Ok_0.0;
            assert(u.accounts[i] == t.accounts[i]);
            lemma_pnl_is_set(u, i, 0, ReserveMode::NoPositiveIncreaseAllowed);
            assert(loss_paid(r.0.accounts[i]));
            lemma_others_paid(s, r.0, set![i]);
        }
    }
}

/// A liquidation leaves losses paid.
pub proof fn liquidate_leaves_losses_paid(
    s: EngineState,
    idx: u16,
    now: u64,
    price: u64,
    policy: LiquidationPolicy,
    rate: i128,
    h_min: u64,
    h_max: u64,
)
    requires
        s.books(),
        s.losses_paid(),
    ensures
        s.liquidate(idx, now, price, policy, rate, h_min, h_max) matches Ok(r) ==> r.0.losses_paid(),
{
    reveal(EngineState::liquidate);
    if let Ok(r) = s.liquidate(idx, now, price, policy, rate, h_min, h_max) {
        let i = idx as int;
        lemma_started(s, i, price, now, rate, h_min, h_max);
        let r1 = s.start_live(i, price, now, rate, h_min, h_max)->Ok_0;
        lemma_liquidated(r1.0, idx, price, policy, r1.1);
        lemma_liquidate_touched(r1.0, idx, price, policy, r1.1);
        let r2 = r1.0.liquidate_touched(idx, price, policy, r1.1)->Ok_0;
        lemma_ended(r2.0, r2.1);
    }
}

proof fn lemma_cranked(start: CrankRun, cands: Seq<Candidate>, n: nat, max: int, price: u64)
    requires
        start.s.books(),
        start.s.losses_paid(),
        start.c.touched.len() == 0,
        n <= cands.len(),
    ensures
        start.run(cands, n, max, price) matches Ok(r) ==> r.s.losses_paid(),
    decreases n,
{
    if n > 0 {
        lemma_cranked(start, cands, (n - 1) as nat, max, price);
        lemma_crank_run(start, cands, (n - 1) as nat, max, price);
        if let Ok(r) = start.run(cands, n, max, price) {
            let p = start.run(cands, (n - 1) as nat, max, price)->Ok_0;
            let cand = cands[n - 1];
            let i = cand.0 as int;
            if p.attempts < max && !p.c.any_reset() && p.s.in_use(i) {
                lemma_touched(p.s, i, p.c);
                touch_keeps_books(p.s, i, p.c);
                let t = p.s.touch(i, p.c)->Ok_0;
                let policy = t.0.keeper_policy(i, t.0.effective_pos(i), cand.1, price);
                if policy is Some {
                    lemma_liquidated(t.0, cand.0, price, policy->0, t.1);
                }
            }
        }
    }
}

/// A keeper crank leaves losses paid.
pub proof fn crank_leaves_losses_paid(
    s: EngineState,
    now: u64,
    price: u64,
    cands: Seq<Candidate>,
    max: u16,
    rate: i128,
    h_min: u64,
    h_max: u64,
)
    requires
        s.books(),
        s.losses_paid(),
    ensures
        s.keeper_crank(now, price, cands, max, rate, h_min, h_max) matches Ok(r) ==> r.0.losses_paid(),
{
    reveal(EngineState::keeper_crank);
    if let Ok(r) = s.keeper_crank(now, price, cands, max, rate, h_min, h_max) {
        accrue_keeps_books(s, now, price, rate);
        let s1 = s.accrue(now, price, rate)->Ok_0;
        let s2 = if now > s1.last_crank_slot {
            EngineState { last_crank_slot: now, ..s1 }
        } else {
            s1
        };
        lemma_others_paid(s, s2, Set::empty());
        let start = CrankRun { s: s2, c: CtxState::fresh(h_min, h_max), attempts: 0, liquidations: 0 };
        lemma_cranked(start, cands, cands.len(), max as int, price);
        lemma_crank_run(start, cands, cands.len(), max as int, price);
        let m = start.run(cands, cands.len(), max as int, price)->Ok_0;
        lemma_ended(m.s, m.c);
    }
}

/// Both legs of a trade leave losses paid.
pub proof fn lemma_traded(
    s: EngineState,
    c: CtxState,
    a: int,
    b: int,
    price: u64,
    size: i128,
    exec_price: u64,
    eq_a: I256,
    eq_b: I256,
)
    requires
        s.books(),
        s.losses_paid(),
        s.in_use(a),
        s.in_use(b),
        a != b,
    ensures
        s.apply_trade(c, a, b, price, size, exec_price, eq_a, eq_b) matches Ok(r) ==> r.0.losses_paid(),
{
    if let Ok(r) = s.apply_trade(c, a, b, price, size, exec_price, eq_a, eq_b) {
        trade_legs_law(s, c, a, b, price, size, exec_price, eq_a, eq_b);
        reveal(EngineState::apply_trade);
        let new_a = (s.effective_pos(a) + size) as i128;
        let new_b = (s.effective_pos(b) - size) as i128;
        let s1 = s.reopen_ready();
        let pnl = trade_pnl_of(size as int, price - exec_price);
        let r2 = s1.book_trade_pnl(a, pnl, c)->Ok_0;
        let mode = ReserveMode::UseAdmissionPair(c.admit_h_min, c.admit_h_max);
        lemma_pnl_is_apart(s1, a, (s1.accounts[a].pnl + pnl) as i128, mode, c);
        let mode2 = ReserveMode::UseAdmissionPair(r2.1.admit_h_min, r2.1.admit_h_max);
        lemma_pnl_is_apart(r2.0, b, (r2.0.accounts[b].pnl - pnl) as i128, mode2, r2.1);
        let s3 = r2.0.book_trade_pnl(b, -pnl, r2.1)->Ok_0.0;
        lemma_attach_len(s3, a, new_a);
        let s4 = s3.attach_position(a, new_a)->Ok_0;
        lemma_attach_len(s4, b, new_b);
        let s5 = s4.attach_position(b, new_b)->Ok_0;
        let oi = s1.oi_after(s.effective_pos(a), s.effective_pos(a) + size, s.effective_pos(b), s.effective_pos(b) - size)->Ok_0;
        let s6 = EngineState { oi_eff_long_q: oi.0, oi_eff_short_q: oi.1, ..s5 };
        lemma_settled(s6, a);
        lemma_settling_one(s6, a);
        let s7 = s6.settle_losses(a)->Ok_0;
        lemma_settled(s7, b);
        lemma_settling_one(s7, b);
        let s8 = s7.settle_losses(b)->Ok_0;
        let fee = s8.trading_fee(size as int, exec_price as int) as u128;
        assert(s8.accounts[a] == s7.accounts[a]);
        lemma_charged(s8, a, fee);
        reveal(EngineState::charge_fee);
        let s9 = s8.charge_fee(a, fee)->Ok_0.0;
        assert(s9.accounts[b] == s8.accounts[b]);
        lemma_charged(s9, b, fee);
        assert(r.0.accounts[a] == s9.accounts[a]);
        lemma_others_paid(s, r.0, set![a, b]);
    }
}

proof fn lemma_attach_len(s: EngineState, i: int, q: i128)
    requires
        0 <= i < s.accounts.len(),
    ensures
        s.attach_position(i, q) matches Ok(t) ==> t.accounts.len() == s.accounts.len(),
{
    reveal(EngineState::attach_position);
}

/// Settling the losses of an account changes that account alone.
proof fn lemma_settling_one(s: EngineState, i: int)
    requires
        0 <= i < s.accounts.len(),
    ensures
        s.settle_losses(i) matches Ok(t) ==> t.accounts == s.accounts.update(i, t.accounts[i]),
{
    reveal(EngineState::settle_losses);
    let a = s.accounts[i];
    if a.pnl < 0 {
        let pay = min_of(-(a.pnl as int), a.capital.v as int);
        if let Ok(t) = s.set_capital(i, (a.capital.v - pay) as u128) {
            let pnl = (a.pnl + pay) as i128;
            let mode = ReserveMode::ImmediateReleaseResolvedOnly;
            lemma_raise_is_apart(t, i, pnl, mode, CtxState::fresh(0, 0));
            lemma_lower_is_apart(t, i, pnl);
            reveal(EngineState::set_pnl);
        }
    }
    if let Ok(t) = s.settle_losses(i) {
        assert(t.accounts =~= s.accounts.update(i, t.accounts[i]));
    }
}

/// A trade leaves losses paid.
pub proof fn trade_leaves_losses_paid(
    s: EngineState,
    a: u16,
    b: u16,
    price: u64,
    now: u64,
    size: i128,
    exec_price: u64,
    rate: i128,
    h_min: u64,
    h_max: u64,
)
    requires
        s.books(),
        s.losses_paid(),
    ensures
        s.execute_trade(a, b, price, now, size, exec_price, rate, h_min, h_max) matches Ok(t) ==> t.losses_paid(),
{
    reveal(EngineState::execute_trade);
    if let Ok(t) = s.execute_trade(a, b, price, now, size, exec_price, rate, h_min, h_max) {
        let i = a as int;
        let j = b as int;
        lemma_start(s, i, price, now, rate, h_min, h_max);
        lemma_started(s, i, price, now, rate, h_min, h_max);
        let r1 = s.start_live(i, price, now, rate, h_min, h_max)->Ok_0;
        lemma_touched(r1.0, j, r1.1);
        touch_keeps_books(r1.0, j, r1.1);
        let r2 = r1.0.touch(j, r1.1)->Ok_0;
        let eq_a = exact(r2.0.accounts[i].equity_maint());
        let eq_b = exact(r2.0.accounts[j].equity_maint());
        lemma_traded(r2.0, r2.1, i, j, price, size, exec_price, eq_a, eq_b);
        trade_legs_law(r2.0, r2.1, i, j, price, size, exec_price, eq_a, eq_b);
        let m = r2.0.apply_trade(r2.1, i, j, price, size, exec_price, eq_a, eq_b)->Ok_0;
        touch_adds_one(r1.1, b);
        assert forall|k: int| 0 <= k < m.1.touched.len() implies m.1.touched[k] == a || m.1.touched[k] == b by {
            assert(m.1.touched[k] == b || r1.1.touched.contains(m.1.touched[k]));
        }
        assert(touched_in_use(m.0, m.1));
        lemma_ended(m.0, m.1);
    }
}

/// A slot that is free after an operation owes nothing.
proof fn lemma_freed(s: EngineState, t: EngineState, idx: u16)
    requires
        s.losses_paid(),
        t.books(),
        !t.in_use(idx as int),
        s.others_same(t, set![idx as int]),
    ensures
        t.losses_paid(),
{
    assert forall|j: int| 0 <= j < s.accounts.len() && set![idx as int].contains(j) implies loss_paid(
        #[trigger] t.accounts[j],
    ) by {
        assert(vacant(t.accounts[j]));
    }
    lemma_others_paid(s, t, set![idx as int]);
}

/// Closing an account leaves losses paid.
pub proof fn close_account_leaves_losses_paid(
    s: EngineState,
    idx: u16,
    now: u64,
    price: u64,
    rate: i128,
    h_min: u64,
    h_max: u64,
)
    requires
        s.books(),
        s.losses_paid(),
    ensures
        s.close_account(idx, now, price, rate, h_min, h_max) matches Ok(r) ==> r.0.losses_paid(),
{
    if let Ok(r) = s.close_account(idx, now, price, rate, h_min, h_max) {
        close_account_law(s, idx, now, price, rate, h_min, h_max);
        lemma_freed(s, r.0, idx);
    }
}

/// Reclaiming a slot leaves losses paid, whether or not it succeeds.
pub proof fn reclaim_leaves_losses_paid(s: EngineState, idx: u16, now: u64)
    requires
        s.books(),
        s.losses_paid(),
    ensures
        s.reclaim(idx, now).0.losses_paid(),
{
    reclaim_law(s, idx, now);
    let t = s.reclaim(idx, now).0;
    let i = idx as int;
    if s.in_use(i) {
        lemma_blank_is_blank(0);
        assert(loss_paid(s.accounts[i]));
        assert(loss_paid(t.accounts[i]));
    }
    lemma_others_paid(s, t, set![i]);
}

proof fn lemma_collecting(s: EngineState, start: int, n: nat)
    requires
        s.accounts.len() == MAX_ACCOUNTS,
        s.losses_paid(),
        0 <= start,
    ensures
        s.collect_dust(start, n) matches Ok(r) ==> r.0.losses_paid() && r.0.accounts.len() == MAX_ACCOUNTS,
    decreases n,
{
    if n > 0 {
        lemma_collecting(s, start, (n - 1) as nat);
        if let Ok(r) = s.collect_dust(start, n) {
            let p = s.collect_dust(start, (n - 1) as nat)->Ok_0.0;
            let i = (start + n - 1) % (MAX_ACCOUNTS as int);
            assert(p.others_same(r.0, set![i]));
            assert(loss_paid(p.accounts[i]));
            lemma_others_paid(p, r.0, set![i]);
        }
    }
}

proof fn lemma_freeing(s: EngineState, list: Seq<u16>, n: nat)
    requires
        s.accounts.len() == MAX_ACCOUNTS,
        s.losses_paid(),
    ensures
        s.free_slots(list, n) matches Ok(t) ==> t.losses_paid() && t.accounts.len() == MAX_ACCOUNTS,
    decreases n,
{
    if n > 0 {
        lemma_freeing(s, list, (n - 1) as nat);
        if let Ok(t) = s.free_slots(list, n) {
            let p = s.free_slots(list, (n - 1) as nat)->Ok_0;
            let i = list[n - 1] as int;
            lemma_blank_is_blank(0);
            assert(p.others_same(t, set![i]));
            lemma_others_paid(p, t, set![i]);
        }
    }
}

/// Garbage collection leaves losses paid.
pub proof fn collect_garbage_leaves_losses_paid(s: EngineState)
    requires
        s.books(),
        s.losses_paid(),
    ensures
        s.collect_garbage() matches Ok(r) ==> r.0.losses_paid(),
{
    if let Ok(r) = s.collect_garbage() {
        let start = s.gc_cursor as int;
        lemma_collecting(s, start, ACCOUNTS_PER_CRANK as nat);
        let m = s.collect_dust(start, ACCOUNTS_PER_CRANK as nat)->Ok_0;
        let s1 = EngineState { gc_cursor: ((start + m.2) % (MAX_ACCOUNTS as int)) as u16, ..m.0 };
        assert(s1.losses_paid());
        lemma_freeing(s1, m.1, m.1.len());
    }
}

/// Fees, top-ups and the settlement of losses without a position leave losses
/// paid.
pub proof fn payments_leave_losses_paid(s: EngineState, idx: u16, amount: u128, now: u64)
    requires
        s.books(),
        s.losses_paid(),
    ensures
        s.top_up(amount, now) matches Ok(r) ==> r.0.losses_paid(),
        s.pay_fee_debt(idx, amount, now) matches Ok(t) ==> t.losses_paid(),
        s.charge_account(idx, amount, now) matches Ok(t) ==> t.losses_paid(),
        s.settle_flat(idx, now) matches Ok(t) ==> t.losses_paid(),
        s.sync_account_fee(idx, now, amount) matches Ok(t) ==> t.losses_paid(),
{
    let i = idx as int;
    if s.in_use(i) {
        assert(loss_paid(s.accounts[i]));
    }
    if let Ok(r) = s.top_up(amount, now) {
        lemma_others_paid(s, r.0, Set::empty());
    }
    if let Ok(t) = s.pay_fee_debt(idx, amount, now) {
        lemma_others_paid(s, t, set![i]);
    }
    if let Ok(t) = s.charge_account(idx, amount, now) {
        lemma_charged(s.at_slot(now), i, amount);
        reveal(EngineState::charge_fee);
        lemma_others_paid(s, t, set![i]);
    }
    if let Ok(t) = s.settle_flat(idx, now) {
        settle_flat_law(s, idx, now);
        let s1 = s.at_slot(now);
        lemma_settled(s1, i);
        lemma_losses_are_apart(s1, i);
        if let Ok(s2) = s1.settle_losses(i) {
            lemma_settled(s2, i);
        }
        lemma_others_paid(s, t, set![i]);
    }
    if let Ok(t) = s.sync_account_fee(idx, now, amount) {
        reveal(EngineState::sync_fee);
        let s1 = if s.is_live() {
            s.at_slot(now)
        } else {
            s
        };
        let anchor = if s.is_live() {
            now
        } else {
            s.resolved_slot
        };
        let fee = min_of(amount * (anchor - s.accounts[i].last_fee_slot), MAX_PROTOCOL_FEE_ABS as int) as u128;
        lemma_charged(s1, i, fee);
        reveal(EngineState::charge_fee);
        lemma_others_paid(s, t, set![i]);
    }
}

/// Reconciling and closing accounts of a resolved market leaves losses paid.
pub proof fn winding_down_leaves_losses_paid(s: EngineState, idx: u16)
    requires
        s.books(),
        s.losses_paid(),
    ensures
        s.reconcile(idx) matches Ok(t) ==> t.losses_paid(),
        s.close_terminal(idx) matches Ok(r) ==> r.0.losses_paid(),
        s.force_close(idx) matches Ok(r) ==> r.0.losses_paid(),
{
    let i = idx as int;
    if let Ok(t) = s.reconcile(idx) {
        reconcile_law(s, idx);
        assert(s.others_same(t, set![i]));
        assert(t.accounts[i].pnl >= 0);
        lemma_others_paid(s, t, set![i]);
    }
    if let Ok(r) = s.close_terminal(idx) {
        close_terminal_law(s, idx);
        lemma_freed(s, r.0, idx);
    }
    if let Ok(r) = s.force_close(idx) {
        force_close_law(s, idx);
        if r.1 == ResolvedCloseResult::ProgressOnly {
            reconcile_law(s, idx);
            assert(r.0.accounts[i].pnl >= 0);
            lemma_others_paid(s, r.0, set![i]);
        } else {
            lemma_freed(s, r.0, idx);
        }
    }
}

/// Settling a flat account that owes is absorbed by the insurance fund alone: its
/// debt is gone, no capital is taken, and the insurance fund pays what it can
/// above its floor.
pub proof fn flat_settlement_takes_no_capital(s: EngineState, idx: u16, now: u64)
    requires
        s.books(),
        s.losses_paid(),
        s.accounts[idx as int].pnl < 0,
    ensures
        s.settle_flat(idx, now) matches Ok(t) ==> {
            let a = s.accounts[idx as int];
            &&& t.accounts[idx as int].pnl == 0
            &&& t.accounts[idx as int].capital == a.capital
            &&& t.c_tot == s.c_tot
            &&& t.vault == s.vault
            &&& t.insurance_fund.balance.v == s.insurance_fund.balance.v - s.insured(-(a.pnl as int))
        },
{
    if let Ok(t) = s.settle_flat(idx, now) {
        reveal(EngineState::settle_losses);
        reveal(EngineState::resolve_flat_negative);
        let i = idx as int;
        assert(loss_paid(s.accounts[i]));
        let s1 = s.at_slot(now);
        assert(s1.settle_losses(i) == Ok::<EngineState, RiskError>(s1));
        let m = s1.absorb_loss(-(s.accounts[i].pnl as int));
        lemma_pnl_is_set(m, i, 0, ReserveMode::ImmediateReleaseResolvedOnly);
        lemma_pnl_moves_no_money(m, i, 0, ReserveMode::ImmediateReleaseResolvedOnly);
    }
}

/// A change of PnL moves no money.
proof fn lemma_pnl_moves_no_money(s: EngineState, i: int, pnl: i128, mode: ReserveMode)
    ensures
        s.set_pnl_plain(i, pnl, mode) matches Ok(t) ==> t.c_tot == s.c_tot && t.vault == s.vault && t.insurance_fund
            == s.insurance_fund,
{
    reveal(EngineState::set_pnl);
    reveal(EngineState::raise_pnl);
    reveal(EngineState::lower_pnl);
}

} // verus!
