//! Every operation on a live market keeps its open interest backed, and what
//! follows from that.

use vstd::prelude::*;
use crate::constants::{ACCOUNTS_PER_CRANK, MAX_ACCOUNTS, MAX_PROTOCOL_FEE_ABS, POS_SCALE};
use crate::context::{touch_adds_one, CtxState};
use crate::engine::books::{
    accrue_keeps_books, charge_keeps_books, finish_touched_keeps_books, lemma_counts,
    position_keeps_books, settle_losses_keeps_books, touch_keeps_books, touched_in_use, vacant,
};
use crate::engine::laws::{
    lemma_blank_is_blank, lemma_crank_run, lemma_liquidate_touched, lemma_start, reconcile_law,
    resolve_law, trade_legs_law,
};
use crate::engine::liquidation::{Candidate, CrankRun};
use crate::engine::open_interest::{
    finishing_keeps_interest, fraction_sum, lemma_adl, lemma_attach, lemma_clear,
    lemma_fees_are_apart, lemma_losses_are_apart, lemma_no_positions, lemma_pnl_is_apart,
    lemma_reset, lemma_same_weights, lemma_sum_is_proper, lemma_touch, on_side, part_on,
    position_is_within_interest, reopening_keeps_interest_backed, resets_back_interest,
    same_position, unchanged_interest_is_backed, unchanged_interest_is_carried,
};
use crate::engine::positions::index_pnl_or_overflow;
use crate::engine::trade::{exact, trade_pnl_of};
use crate::int128::U128;
use crate::model::EngineState;
use crate::types::{
    side_of, LiquidationPolicy, MarketMode, ReserveMode, ResolveMode, RiskParams, Side,
};
use crate::wide_math::{I256, abs_of, min_of, muldiv, muldiv_up};

verus! {

/// A backed state at the start of a live instruction.
proof fn lemma_started(s: EngineState, i: int, price: u64, now: u64, rate: i128, h_min: u64, h_max: u64)
    requires
        s.books(),
        s.interest_backed(),
    ensures
        s.start_live(i, price, now, rate, h_min, h_max) matches Ok(r) ==> {
            &&& r.0.books()
            &&& r.0.interest_backed()
            &&& !r.1.any_reset()
            &&& touched_in_use(r.0, r.1)
            &&& r.0.in_use(i)
        },
{
    if let Ok(r) = s.start_live(i, price, now, rate, h_min, h_max) {
        reveal(EngineState::accrue);
        let s1 = s.accrue(now, price, rate)->Ok_0;
        assert(s.same_interest(s1));
        unchanged_interest_is_backed(s, s1);
        lemma_touch(s1, i, CtxState::fresh(h_min, h_max));
        lemma_start(s, i, price, now, rate, h_min, h_max);
    }
}

/// The end of a live instruction, from a state in which both sides are carried.
proof fn lemma_ended(s: EngineState, c: CtxState)
    requires
        s.books(),
        s.interest_carried(c),
        touched_in_use(s, c),
    ensures
        s.finish_touched(c) matches Ok(s1) ==> s1.interest_carried(c) && (s1.end_instruction(c) matches Ok(t)
                ==> t.interest_backed()),
{
    if let Ok(s1) = s.finish_touched(c) {
        finishing_keeps_interest(s, c);
        unchanged_interest_is_carried(s, s1, c);
        resets_back_interest(s1, c);
    }
}

/// Settling an account keeps the open interest backed.
pub proof fn settling_keeps_interest_backed(
    s: EngineState,
    idx: u16,
    price: u64,
    now: u64,
    rate: i128,
    h_min: u64,
    h_max: u64,
)
    requires
        s.books(),
        s.interest_backed(),
    ensures
        s.settle_account(idx, price, now, rate, h_min, h_max) matches Ok(t) ==> t.interest_backed()
            && (s.oi_balanced() ==> t.oi_balanced()),
{
    reveal(EngineState::settle_account);
    if let Ok(t) = s.settle_account(idx, price, now, rate, h_min, h_max) {
        lemma_started(s, idx as int, price, now, rate, h_min, h_max);
        let r = s.start_live(idx as int, price, now, rate, h_min, h_max)->Ok_0;
        lemma_ended(r.0, r.1);
    }
}

/// A withdrawal keeps the open interest backed.
pub proof fn withdrawing_keeps_interest_backed(
    s: EngineState,
    idx: u16,
    amount: u128,
    price: u64,
    now: u64,
    rate: i128,
    h_min: u64,
    h_max: u64,
)
    requires
        s.books(),
        s.interest_backed(),
    ensures
        s.withdraw(idx, amount, price, now, rate, h_min, h_max) matches Ok(t) ==> t.interest_backed()
            && (s.oi_balanced() ==> t.oi_balanced()),
{
    reveal(EngineState::withdraw);
    if let Ok(t) = s.withdraw(idx, amount, price, now, rate, h_min, h_max) {
        let i = idx as int;
        lemma_started(s, i, price, now, rate, h_min, h_max);
        let r = s.start_live(i, price, now, rate, h_min, h_max)->Ok_0;
        finish_touched_keeps_books(r.0, r.1);
        lemma_ended(r.0, r.1);
        let s1 = r.0.finish_touched(r.1)->Ok_0;
        let s2 = s1.set_capital(i, (s1.accounts[i].capital.v - amount) as u128)->Ok_0;
        let s3 = EngineState { vault: U128 { v: (s2.vault.v - amount) as u128 }, ..s2 };
        assert(s1.same_interest(s3));
        unchanged_interest_is_carried(s1, s3, r.1);
        resets_back_interest(s3, r.1);
    }
}

/// A conversion of profit keeps the open interest backed.
pub proof fn converting_keeps_interest_backed(
    s: EngineState,
    idx: u16,
    x: u128,
    price: u64,
    now: u64,
    rate: i128,
    h_min: u64,
    h_max: u64,
)
    requires
        s.books(),
        s.interest_backed(),
    ensures
        s.convert_released(idx, x, price, now, rate, h_min, h_max) matches Ok(t) ==> t.interest_backed()
            && (s.oi_balanced() ==> t.oi_balanced()),
{
    reveal(EngineState::convert_released);
    if let Ok(t) = s.convert_released(idx, x, price, now, rate, h_min, h_max) {
        let i = idx as int;
        lemma_started(s, i, price, now, rate, h_min, h_max);
        let r = s.start_live(i, price, now, rate, h_min, h_max)->Ok_0;
        let s1 = r.0;
        reveal(EngineState::consume_released);
        let s2 = s1.consume_released(i, x)->Ok_0;
        assert(s1.same_interest(s2));
        let s3 = s2.set_capital(
            i,
            (s2.accounts[i].capital.v + muldiv(x as int, s1.haircut().0, s1.haircut().1)) as u128,
        )->Ok_0;
        assert(s1.same_interest(s3));
        lemma_fees_are_apart(s3, i, 0);
        let s4 = s3.sweep_fee_debt(i)->Ok_0;
        assert(s1.same_interest(s4));
        unchanged_interest_is_carried(s1, s4, r.1);
        assert(touched_in_use(s4, r.1)) by {
            reveal(EngineState::sweep_fee_debt);
        }
        finishing_keeps_interest(s4, r.1);
        let s5 = s4.finish_touched(r.1)->Ok_0;
        unchanged_interest_is_carried(s4, s5, r.1);
        resets_back_interest(s5, r.1);
    }
}

/// Closing a quantity takes it out of the open interest that is backed.
proof fn lemma_closed(s: EngineState, i: int, left: i128, q: int, price: u64)
    requires
        s.books(),
        s.interest_backed(),
        s.in_use(i),
    ensures
        s.close_quantity(i, left, q, price) matches Ok(t) ==> {
            let q0 = s.effective_pos(i);
            &&& t.books()
            &&& t.side_in_order(Side::Long)
            &&& t.side_in_order(Side::Short)
            &&& t.oi_eff_long_q == s.oi_eff_long_q
            &&& t.oi_eff_short_q == s.oi_eff_short_q
            &&& t.backs_interest(
                Side::Long,
                s.oi_eff_long_q - part_on(q0, Side::Long) + part_on(left as int, Side::Long),
            )
            &&& t.backs_interest(
                Side::Short,
                s.oi_eff_short_q - part_on(q0, Side::Short) + part_on(left as int, Side::Short),
            )
            &&& t.in_use(i)
        },
{
    if let Ok(t) = s.close_quantity(i, left, q, price) {
        let q0 = s.effective_pos(i);
        let s1 = s.attach_position(i, left)->Ok_0;
        lemma_attach(s, i, left, Side::Long, s.oi_eff_long_q as int);
        lemma_attach(s, i, left, Side::Short, s.oi_eff_short_q as int);
        position_keeps_books(s, i, left);
        lemma_losses_are_apart(s1, i);
        settle_losses_keeps_books(s1, i);
        let s2 = s1.settle_losses(i)->Ok_0;
        let fee = s2.liquidation_fee(q, price as int) as u128;
        lemma_fees_are_apart(s2, i, fee);
        charge_keeps_books(s2, i, fee);
        lemma_same_weights(s1, s2, Side::Long);
        lemma_same_weights(s1, s2, Side::Short);
        lemma_same_weights(s2, t, Side::Long);
        lemma_same_weights(s2, t, Side::Short);
    }
}

/// A liquidation of a touched account keeps both sides backed, or schedules their
/// reset.
proof fn lemma_liquidated(s: EngineState, idx: u16, price: u64, policy: LiquidationPolicy, c: CtxState)
    requires
        s.books(),
        s.interest_backed(),
    ensures
        s.liquidate_touched(idx, price, policy, c) matches Ok(r) ==> r.0.interest_carried(r.1),
{
    reveal(EngineState::liquidate_touched);
    let i = idx as int;
    if let Ok(r) = s.liquidate_touched(idx, price, policy, c) {
        let q0 = s.effective_pos(i);
        if r.2 {
            let side = side_of(q0)->0;
            let q = match policy {
                LiquidationPolicy::ExactPartial(q) => q,
                LiquidationPolicy::FullClose => abs_of(q0) as u128,
            };
            let left = if q0 > 0 {
                q0 - q
            } else {
                q0 + q
            };
            position_is_within_interest(s, i, side);
            lemma_closed(s, i, left as i128, q as int, price);
            let t = s.close_quantity(i, left as i128, q as int, price)->Ok_0;
            let d = match policy {
                LiquidationPolicy::ExactPartial(_) => 0,
                LiquidationPolicy::FullClose => t.deficit(i) as u128,
            };
            lemma_adl(t, c, side, q, d);
            let u = t.enqueue_adl(c, side, q, d)->Ok_0.0;
            lemma_pnl_is_apart(u, i, 0, ReserveMode::NoPositiveIncreaseAllowed, CtxState::fresh(0, 0));
            if r.0 != u {
                unchanged_interest_is_carried(u, r.0, r.1);
            }
        }
    }
}

/// A liquidation keeps the open interest backed.
pub proof fn liquidating_keeps_interest_backed(
    s: EngineState,
    idx: u16,
    now: u64,
    price: u64,
    policy: LiquidationPolicy,
    rate: i128,
    h_min: u64,
    h_max: u64,
)
    requires
        s.books(),
        s.interest_backed(),
    ensures
        s.liquidate(idx, now, price, policy, rate, h_min, h_max) matches Ok(r) ==> r.0.interest_backed()
            && (s.oi_balanced() ==> r.0.oi_balanced()),
{
    reveal(EngineState::liquidate);
    if let Ok(r) = s.liquidate(idx, now, price, policy, rate, h_min, h_max) {
        let i = idx as int;
        lemma_started(s, i, price, now, rate, h_min, h_max);
        let r1 = s.start_live(i, price, now, rate, h_min, h_max)->Ok_0;
        lemma_liquidated(r1.0, idx, price, policy, r1.1);
        lemma_liquidate_touched(r1.0, idx, price, policy, r1.1);
        let r2 = r1.0.liquidate_touched(idx, price, policy, r1.1)->Ok_0;
        lemma_ended(r2.0, r2.1);
    }
}

proof fn lemma_cranked(start: CrankRun, cands: Seq<Candidate>, n: nat, max: int, price: u64)
    requires
        start.s.books(),
        start.s.interest_backed(),
        !start.c.any_reset(),
        start.c.touched.len() == 0,
        n <= cands.len(),
    ensures
        start.run(cands, n, max, price) matches Ok(r) ==> r.s.interest_carried(r.c),
    decreases n,
{
    if n > 0 {
        lemma_cranked(start, cands, (n - 1) as nat, max, price);
        lemma_crank_run(start, cands, (n - 1) as nat, max, price);
        if let Ok(r) = start.run(cands, n, max, price) {
            let p = start.run(cands, (n - 1) as nat, max, price)->Ok_0;
            let cand = cands[n - 1];
            let i = cand.0 as int;
            if p.attempts < max && !p.c.any_reset() && p.s.in_use(i) {
                assert(p.s.interest_backed());
                lemma_touch(p.s, i, p.c);
                touch_keeps_books(p.s, i, p.c);
                let t = p.s.touch(i, p.c)->Ok_0;
                let policy = t.0.keeper_policy(i, t.0.effective_pos(i), cand.1, price);
                if policy is Some {
                    lemma_liquidated(t.0, cand.0, price, policy->0, t.1);
                }
            }
        }
    }
}

/// A keeper crank keeps the open interest backed.
pub proof fn cranking_keeps_interest_backed(
    s: EngineState,
    now: u64,
    price: u64,
    cands: Seq<Candidate>,
    max: u16,
    rate: i128,
    h_min: u64,
    h_max: u64,
)
    requires
        s.books(),
        s.interest_backed(),
    ensures
        s.keeper_crank(now, price, cands, max, rate, h_min, h_max) matches Ok(r) ==> r.0.interest_backed()
            && (s.oi_balanced() ==> r.0.oi_balanced()),
{
    reveal(EngineState::keeper_crank);
    if let Ok(r) = s.keeper_crank(now, price, cands, max, rate, h_min, h_max) {
        accrue_keeps_books(s, now, price, rate);
        reveal(EngineState::accrue);
        let s1 = s.accrue(now, price, rate)->Ok_0;
        let s2 = if now > s1.last_crank_slot {
            EngineState { last_crank_slot: now, ..s1 }
        } else {
            s1
        };
        assert(s.same_interest(s2));
        unchanged_interest_is_backed(s, s2);
        let start = CrankRun { s: s2, c: CtxState::fresh(h_min, h_max), attempts: 0, liquidations: 0 };
        lemma_cranked(start, cands, cands.len(), max as int, price);
        lemma_crank_run(start, cands, cands.len(), max as int, price);
        let m = start.run(cands, cands.len(), max as int, price)->Ok_0;
        lemma_ended(m.s, m.c);
    }
}

/// Both legs of a trade keep the open interest backed.
proof fn lemma_traded(
    s: EngineState,
    c: CtxState,
    a: int,
    b: int,
    price: u64,
    size: i128,
    exec_price: u64,
    eq_a: I256,
    eq_b: I256,
)
    requires
        s.interest_backed(),
        !c.any_reset(),
        0 <= a < s.accounts.len(),
        0 <= b < s.accounts.len(),
        a != b,
    ensures
        s.apply_trade(c, a, b, price, size, exec_price, eq_a, eq_b) matches Ok(r) ==> r.0.interest_carried(r.1),
{
    reveal(EngineState::apply_trade);
    if let Ok(r) = s.apply_trade(c, a, b, price, size, exec_price, eq_a, eq_b) {
        let old_a = s.effective_pos(a);
        let old_b = s.effective_pos(b);
        let new_a = (old_a + size) as i128;
        let new_b = (old_b - size) as i128;
        let s1 = s.reopen_ready();
        reopening_keeps_interest_backed(s);
        let oi = s1.oi_after(old_a, old_a + size, old_b, old_b - size)->Ok_0;
        let mode = ReserveMode::UseAdmissionPair(c.admit_h_min, c.admit_h_max);
        let pnl = trade_pnl_of(size as int, price - exec_price);
        lemma_pnl_is_apart(s1, a, (s1.accounts[a].pnl + pnl) as i128, mode, c);
        let r2 = s1.book_trade_pnl(a, pnl, c)->Ok_0;
        let s2 = r2.0;
        unchanged_interest_is_backed(s1, s2);
        let mode2 = ReserveMode::UseAdmissionPair(r2.1.admit_h_min, r2.1.admit_h_max);
        lemma_pnl_is_apart(s2, b, (s2.accounts[b].pnl - pnl) as i128, mode2, r2.1);
        let r3 = s2.book_trade_pnl(b, -pnl, r2.1)->Ok_0;
        let s3 = r3.0;
        unchanged_interest_is_backed(s2, s3);
        assert(s3.effective_pos(a) == old_a && s3.effective_pos(b) == old_b) by {
            assert(s1.same_interest(s3));
            assert(same_position(s1.accounts[a], s3.accounts[a]));
            assert(same_position(s1.accounts[b], s3.accounts[b]));
        }
        lemma_attach(s3, a, new_a, Side::Long, s3.oi_eff_long_q as int);
        lemma_attach(s3, a, new_a, Side::Short, s3.oi_eff_short_q as int);
        let s4 = s3.attach_position(a, new_a)->Ok_0;
        assert(s4.effective_pos(b) == old_b);
        let long = s3.oi_eff_long_q - part_on(old_a, Side::Long) + part_on(new_a as int, Side::Long);
        let short = s3.oi_eff_short_q - part_on(old_a, Side::Short) + part_on(new_a as int, Side::Short);
        lemma_attach(s4, b, new_b, Side::Long, long);
        lemma_attach(s4, b, new_b, Side::Short, short);
        let s5 = s4.attach_position(b, new_b)->Ok_0;
        let s6 = EngineState { oi_eff_long_q: oi.0, oi_eff_short_q: oi.1, ..s5 };
        lemma_same_weights(s5, s6, Side::Long);
        lemma_same_weights(s5, s6, Side::Short);
        lemma_snaps(s5, s6);
        assert(s6.interest_backed());
        lemma_losses_are_apart(s6, a);
        let s7 = s6.settle_losses(a)->Ok_0;
        unchanged_interest_is_backed(s6, s7);
        lemma_losses_are_apart(s7, b);
        let s8 = s7.settle_losses(b)->Ok_0;
        unchanged_interest_is_backed(s7, s8);
        let fee = s8.trading_fee(size as int, exec_price as int) as u128;
        lemma_fees_are_apart(s8, a, fee);
        let s9 = s8.charge_fee(a, fee)->Ok_0.0;
        unchanged_interest_is_backed(s8, s9);
        lemma_fees_are_apart(s9, b, fee);
        unchanged_interest_is_backed(s9, r.0);
    }
}

/// The epochs of positions stay in order where accounts and epochs are the same.
proof fn lemma_snaps(s: EngineState, t: EngineState)
    requires
        t.accounts == s.accounts,
        t.adl_epoch_long == s.adl_epoch_long,
        t.adl_epoch_short == s.adl_epoch_short,
        s.side_in_order(Side::Long),
        s.side_in_order(Side::Short),
    ensures
        forall|j: int|
        0 <= j < t.accounts.len() && on_side(#[trigger] t.accounts[j], Side::Long) ==> t.accounts[j].adl_epoch_snap
            <= t.adl_epoch_long,
        forall|j: int|
        0 <= j < t.accounts.len() && on_side(#[trigger] t.accounts[j], Side::Short) ==> t.accounts[j].adl_epoch_snap
            <= t.adl_epoch_short,
{
}

/// A trade keeps the open interest backed.
pub proof fn trading_keeps_interest_backed(
    s: EngineState,
    a: u16,
    b: u16,
    price: u64,
    now: u64,
    size: i128,
    exec_price: u64,
    rate: i128,
    h_min: u64,
    h_max: u64,
)
    requires
        s.books(),
        s.interest_backed(),
    ensures
        s.execute_trade(a, b, price, now, size, exec_price, rate, h_min, h_max) matches Ok(t) ==> t.interest_backed()
            && (s.oi_balanced() ==> t.oi_balanced()),
{
    reveal(EngineState::execute_trade);
    if let Ok(t) = s.execute_trade(a, b, price, now, size, exec_price, rate, h_min, h_max) {
        let i = a as int;
        let j = b as int;
        lemma_start(s, i, price, now, rate, h_min, h_max);
        lemma_started(s, i, price, now, rate, h_min, h_max);
        let r1 = s.start_live(i, price, now, rate, h_min, h_max)->Ok_0;
        lemma_touch(r1.0, j, r1.1);
        touch_keeps_books(r1.0, j, r1.1);
        let r2 = r1.0.touch(j, r1.1)->Ok_0;
        let eq_a = exact(r2.0.accounts[i].equity_maint());
        let eq_b = exact(r2.0.accounts[j].equity_maint());
        lemma_traded(r2.0, r2.1, i, j, price, size, exec_price, eq_a, eq_b);
        let m = r2.0.apply_trade(r2.1, i, j, price, size, exec_price, eq_a, eq_b)->Ok_0;
        trade_legs_law(r2.0, r2.1, i, j, price, size, exec_price, eq_a, eq_b);
        touch_adds_one(r1.1, b);
        assert forall|k: int| 0 <= k < m.1.touched.len() implies m.1.touched[k] == a || m.1.touched[k] == b by {
            assert(m.1.touched[k] == b || r1.1.touched.contains(m.1.touched[k]));
        }
        assert(touched_in_use(m.0, m.1));
        lemma_ended(m.0, m.1);
    }
}

/// Freeing a slot changes nothing that open interest depends on.
proof fn lemma_freed(s: EngineState, idx: u16)
    requires
        s.accounts.len() == MAX_ACCOUNTS,
    ensures
        s.same_interest(s.free_slot(idx).0),
{
    lemma_blank_is_blank(0);
}

/// Closing an account keeps the open interest backed.
pub proof fn closing_keeps_interest_backed(
    s: EngineState,
    idx: u16,
    now: u64,
    price: u64,
    rate: i128,
    h_min: u64,
    h_max: u64,
)
    requires
        s.books(),
        s.interest_backed(),
    ensures
        s.close_account(idx, now, price, rate, h_min, h_max) matches Ok(r) ==> r.0.interest_backed()
            && (s.oi_balanced() ==> r.0.oi_balanced()),
{
    reveal(EngineState::close_account);
    if let Ok(r) = s.close_account(idx, now, price, rate, h_min, h_max) {
        let i = idx as int;
        lemma_started(s, i, price, now, rate, h_min, h_max);
        let r1 = s.start_live(i, price, now, rate, h_min, h_max)->Ok_0;
        finish_touched_keeps_books(r1.0, r1.1);
        lemma_ended(r1.0, r1.1);
        let s1 = r1.0.finish_touched(r1.1)->Ok_0;
        let s2 = s1.pay_out(i)->Ok_0.0;
        assert(s1.same_interest(s2));
        unchanged_interest_is_carried(s1, s2, r1.1);
        resets_back_interest(s2, r1.1);
        let m = s2.schedule_resets(r1.1)->Ok_0;
        let s3 = m.0.finalize_resets(m.1)->Ok_0;
        lemma_freed(s3, idx);
        unchanged_interest_is_backed(s3, r.0);
    }
}

/// A deposit keeps the open interest backed.
pub proof fn depositing_keeps_interest_backed(s: EngineState, idx: u16, amount: u128, now: u64)
    requires
        s.books(),
        s.interest_backed(),
    ensures
        s.deposit(idx, amount, now) matches Ok(t) ==> t.interest_backed()
            && (s.oi_balanced() ==> t.oi_balanced()),
{
    reveal(EngineState::deposit);
    if let Ok(t) = s.deposit(idx, amount, now) {
        let i = idx as int;
        let s1 = if s.in_use(i) {
            s
        } else {
            s.materialize_at(idx, now)->Ok_0
        };
        assert(s.same_interest(s1)) by {
            if !s.in_use(i) {
                assert(vacant(s.accounts[i]));
                lemma_blank_is_blank(now);
            }
        }
        let s2 = EngineState { current_slot: now, vault: U128 { v: (s.vault.v + amount) as u128 }, ..s1 };
        let s3 = s2.set_capital(i, (s2.accounts[i].capital.v + amount) as u128)->Ok_0;
        assert(s.same_interest(s3));
        lemma_losses_are_apart(s3, i);
        let s4 = s3.settle_losses(i)->Ok_0;
        lemma_fees_are_apart(s4, i, 0);
        assert(s.same_interest(t));
        unchanged_interest_is_backed(s, t);
    }
}

/// Reclaiming a slot keeps the open interest backed, whether or not it succeeds.
pub proof fn reclaiming_keeps_interest_backed(s: EngineState, idx: u16, now: u64)
    requires
        s.books(),
        s.interest_backed(),
    ensures
        s.reclaim(idx, now).0.interest_backed(),
        s.oi_balanced() ==> s.reclaim(idx, now).0.oi_balanced(),
{
    let t = s.reclaim(idx, now).0;
    if s.in_use(idx as int) {
        if let Ok(s2) = s.at_slot(now).sweep_dust(idx as int) {
            lemma_freed(s2, idx);
        }
    }
    assert(s.same_interest(t));
    unchanged_interest_is_backed(s, t);
}

proof fn lemma_collecting(s: EngineState, start: int, n: nat)
    requires
        s.accounts.len() == MAX_ACCOUNTS,
        0 <= start,
    ensures
        s.collect_dust(start, n) matches Ok(r) ==> s.same_interest(r.0),
    decreases n,
{
    if n > 0 {
        lemma_collecting(s, start, (n - 1) as nat);
    }
}

proof fn lemma_freeing(s: EngineState, list: Seq<u16>, n: nat)
    requires
        s.accounts.len() == MAX_ACCOUNTS,
    ensures
        s.free_slots(list, n) matches Ok(t) ==> s.same_interest(t),
    decreases n,
{
    if n > 0 {
        lemma_freeing(s, list, (n - 1) as nat);
        if let Ok(t) = s.free_slots(list, (n - 1) as nat) {
            lemma_freed(t, list[n - 1]);
        }
    }
}

/// Garbage collection keeps the open interest backed.
pub proof fn collecting_keeps_interest_backed(s: EngineState)
    requires
        s.books(),
        s.interest_backed(),
    ensures
        s.collect_garbage() matches Ok(r) ==> r.0.interest_backed()
            && (s.oi_balanced() ==> r.0.oi_balanced()),
{
    if let Ok(r) = s.collect_garbage() {
        let start = s.gc_cursor as int;
        lemma_collecting(s, start, ACCOUNTS_PER_CRANK as nat);
        let m = s.collect_dust(start, ACCOUNTS_PER_CRANK as nat)->Ok_0;
        let s1 = EngineState { gc_cursor: ((start + m.2) % (MAX_ACCOUNTS as int)) as u16, ..m.0 };
        lemma_freeing(s1, m.1, m.1.len());
        assert(s.same_interest(r.0));
        unchanged_interest_is_backed(s, r.0);
    }
}

/// Fees, top-ups and the settlement of losses without a position keep the open
/// interest backed.
pub proof fn payments_keep_interest_backed(s: EngineState, idx: u16, amount: u128, now: u64)
    requires
        s.books(),
        s.interest_backed(),
    ensures
        s.top_up(amount, now) matches Ok(r) ==> r.0.interest_backed()
            && (s.oi_balanced() ==> r.0.oi_balanced()),
        s.pay_fee_debt(idx, amount, now) matches Ok(t) ==> t.interest_backed()
            && (s.oi_balanced() ==> t.oi_balanced()),
        s.charge_account(idx, amount, now) matches Ok(t) ==> t.interest_backed()
            && (s.oi_balanced() ==> t.oi_balanced()),
        s.settle_flat(idx, now) matches Ok(t) ==> t.interest_backed()
            && (s.oi_balanced() ==> t.oi_balanced()),
        s.sync_account_fee(idx, now, amount) matches Ok(t) ==> t.interest_backed()
            && (s.oi_balanced() ==> t.oi_balanced()),
{
    let i = idx as int;
    if let Ok(r) = s.top_up(amount, now) {
        assert(s.same_interest(r.0));
        unchanged_interest_is_backed(s, r.0);
    }
    if let Ok(t) = s.pay_fee_debt(idx, amount, now) {
        assert(s.same_interest(t));
        unchanged_interest_is_backed(s, t);
    }
    if let Ok(t) = s.charge_account(idx, amount, now) {
        lemma_fees_are_apart(s.at_slot(now), i, amount);
        assert(s.same_interest(t));
        unchanged_interest_is_backed(s, t);
    }
    if let Ok(t) = s.settle_flat(idx, now) {
        let s1 = s.at_slot(now);
        lemma_losses_are_apart(s1, i);
        if let Ok(s2) = s1.settle_losses(i) {
            lemma_losses_are_apart(s2, i);
        }
        assert(s.same_interest(t));
        unchanged_interest_is_backed(s, t);
    }
    if let Ok(t) = s.sync_account_fee(idx, now, amount) {
        reveal(EngineState::sync_fee);
        let s1 = if s.is_live() {
            s.at_slot(now)
        } else {
            s
        };
        let anchor = if s.is_live() {
            now
        } else {
            s.resolved_slot
        };
        let fee = min_of(amount * (anchor - s.accounts[i].last_fee_slot), MAX_PROTOCOL_FEE_ABS as int) as u128;
        lemma_fees_are_apart(s1, i, fee);
        assert(s.same_interest(t));
        unchanged_interest_is_backed(s, t);
    }
}

/// Resolving the market keeps the open interest backed: there is none left.
pub proof fn resolving_keeps_interest_backed(
    s: EngineState,
    mode: ResolveMode,
    resolved: u64,
    live: u64,
    now: u64,
    rate: i128,
)
    requires
        s.books(),
        s.interest_backed(),
    ensures
        s.resolve_market(mode, resolved, live, now, rate) matches Ok(t) ==> t.interest_backed() && t.oi_balanced(),
{
    if let Ok(t) = s.resolve_market(mode, resolved, live, now, rate) {
        resolve_law(s, mode, resolved, live, now, rate);
        reveal(EngineState::resolve_market);
        reveal(EngineState::accrue);
        let s1 = s.before_resolution(mode, live, now, rate)->Ok_0;
        assert(s.same_interest(s1));
        unchanged_interest_is_backed(s, s1);
        let s2 = EngineState {
            current_slot: now,
            market_mode: MarketMode::Resolved,
            resolved_price: resolved,
            resolved_live_price: live,
            resolved_slot: now,
            resolved_k_long_terminal_delta: s1.terminal_delta(Side::Long, resolved - live)->Ok_0,
            resolved_k_short_terminal_delta: s1.terminal_delta(Side::Short, -(resolved - live))->Ok_0,
            resolved_payout_h_num: 0,
            resolved_payout_h_den: 0,
            resolved_payout_ready: 0,
            pnl_matured_pos_tot: s1.pnl_pos_tot,
            oi_eff_long_q: 0,
            oi_eff_short_q: 0,
            ..s1
        };
        lemma_same_weights(s1, s2, Side::Long);
        lemma_same_weights(s1, s2, Side::Short);
        lemma_snaps(s1, s2);
        assert(s2.side_in_order(Side::Long) && s2.side_in_order(Side::Short));
        lemma_reset(s2, Side::Long);
        let s3 = s2.drain_side(Side::Long)->Ok_0;
        lemma_same_weights(s2, s3, Side::Short);
        assert(s3.side_in_order(Side::Long) && s3.backs_interest(Side::Long, 0));
        lemma_reset(s3, Side::Short);
        let s4 = s3.drain_side(Side::Short)->Ok_0;
        lemma_same_weights(s3, s4, Side::Long);
        assert(s4.interest_backed());
        reopening_keeps_interest_backed(s4);
    }
}

/// Ending the positions of earlier epochs keeps the open interest backed.
proof fn lemma_terminal(s: EngineState, i: int)
    requires
        0 <= i < s.accounts.len(),
        s.interest_backed(),
    ensures
        s.settle_terminal(i) matches Ok(t) ==> t.interest_backed() && t.accounts.len() == s.accounts.len()
            && t.oi_eff_long_q == s.oi_eff_long_q && t.oi_eff_short_q == s.oi_eff_short_q,
{
    reveal(EngineState::settle_terminal);
    let a = s.accounts[i];
    if a.position_basis_q != 0 {
        if let Ok(t) = s.settle_terminal(i) {
            let side = side_of(a.position_basis_q as int)->0;
            let delta = index_pnl_or_overflow(
                abs_of(a.position_basis_q as int),
                s.k_epoch_start(side) + s.terminal_shift(side) - a.adl_k_snap,
                s.f_epoch_start(side) - a.f_snap,
                (a.adl_a_basis * POS_SCALE) as u128 as int,
            )->Ok_0;
            let pnl = (a.pnl + delta) as i128;
            let mode = ReserveMode::ImmediateReleaseResolvedOnly;
            lemma_pnl_is_apart(s, i, pnl, mode, CtxState::fresh(0, 0));
            let s1 = if delta != 0 {
                let m = s.set_pnl_plain(i, pnl, mode)->Ok_0;
                EngineState { pnl_matured_pos_tot: m.pnl_pos_tot, ..m }
            } else {
                s
            };
            assert(s.same_interest(s1));
            unchanged_interest_is_backed(s, s1);
            assert(same_position(s.accounts[i], s1.accounts[i]));
            assert(s1.effective_pos(i) == 0);
            assert(t.accounts =~= s1.accounts.update(i, t.accounts[i]));
            lemma_clear(s1, t, i, Side::Long, s1.oi_eff_long_q as int);
            lemma_clear(s1, t, i, Side::Short, s1.oi_eff_short_q as int);
        }
    }
}

/// Reconciling and closing accounts of a resolved market keeps the open interest
/// backed.
pub proof fn winding_down_keeps_interest_backed(s: EngineState, idx: u16)
    requires
        s.books(),
        s.interest_backed(),
    ensures
        s.reconcile(idx) matches Ok(t) ==> t.interest_backed() && t.oi_balanced(),
        s.close_terminal(idx) matches Ok(r) ==> r.0.interest_backed() && r.0.oi_balanced(),
        s.force_close(idx) matches Ok(r) ==> r.0.interest_backed() && r.0.oi_balanced(),
{
    lemma_reconciled(s, idx);
    lemma_paid_out(s, idx);
    if let Ok(r) = s.force_close(idx) {
        let s1 = s.reconcile(idx)->Ok_0;
        reconcile_law(s, idx);
        reopening_keeps_interest_backed(s1);
        let s2 = s1.reopen_ready();
        assert(s2.books());
        lemma_paid_out(s2, idx);
    }
}

proof fn lemma_reconciled(s: EngineState, idx: u16)
    requires
        s.books(),
        s.interest_backed(),
    ensures
        s.reconcile(idx) matches Ok(t) ==> t.interest_backed() && t.oi_balanced(),
{
    reveal(EngineState::reconcile);
    let i = idx as int;
    if let Ok(t) = s.reconcile(idx) {
        let s1 = s.at_slot(s.resolved_slot).with_account(i, s.accounts[i].without_reserve());
        assert(s.same_interest(s1));
        unchanged_interest_is_backed(s, s1);
        lemma_terminal(s1, i);
        let s2 = s1.settle_terminal(i)->Ok_0;
        lemma_losses_are_apart(s2, i);
        let s3 = s2.settle_losses(i)->Ok_0;
        unchanged_interest_is_backed(s2, s3);
        lemma_losses_are_apart(s3, i);
        unchanged_interest_is_backed(s3, t);
    }
}

proof fn lemma_paid_out(s: EngineState, idx: u16)
    requires
        s.books(),
        s.interest_backed(),
    ensures
        s.close_terminal(idx) matches Ok(r) ==> r.0.interest_backed() && r.0.oi_balanced(),
{
    reveal(EngineState::close_terminal);
    let i = idx as int;
    if let Ok(r) = s.close_terminal(idx) {
        let s1 = s.with_account(i, s.accounts[i].without_reserve());
        assert(s.same_interest(s1));
        let f = s1.with_payout_frozen();
        lemma_pnl_is_apart(f, i, 0, ReserveMode::NoPositiveIncreaseAllowed, CtxState::fresh(0, 0));
        let s2 = s1.pay_profit(i)->Ok_0;
        assert(s1.same_interest(s2));
        lemma_fees_are_apart(s2, i, 0);
        let s3 = s2.sweep_fee_debt(i)->Ok_0;
        let s4 = s3.forgive_fee_debt(i);
        assert(s3.same_interest(s4));
        let s5 = s4.pay_out(i)->Ok_0.0;
        assert(s4.same_interest(s5));
        lemma_freed(s5, idx);
        assert(s.same_interest(r.0));
        unchanged_interest_is_backed(s, r.0);
    }
}

/// The open interest of a new market is backed: there is none.
pub proof fn fresh_interest_is_backed(s: EngineState, p: RiskParams, slot: u64, price: u64)
    requires
        s.is_fresh(p, slot, price),
        s.books(),
    ensures
        s.interest_backed(),
        s.oi_balanced(),
{
    lemma_no_positions(s, Side::Long);
    lemma_no_positions(s, Side::Short);
    assert forall|j: int| 0 <= j < s.accounts.len() implies !on_side(#[trigger] s.accounts[j], Side::Long) && !on_side(
        s.accounts[j],
        Side::Short,
    ) by {
        lemma_counts(s.accounts, j);
    }
}

/// Open interest that no position accounts for never blocks an instruction: what
/// is left on a side without positions is within its dust bound, and is written
/// off.
pub proof fn dust_never_blocks(s: EngineState, c: CtxState)
    requires
        s.books(),
        s.interest_backed(),
        s.oi_balanced(),
        s.clear_bound() <= u128::MAX,
    ensures
        s.schedule_resets(c) is Ok,
{
    reveal(EngineState::schedule_resets);
    if s.stored_pos_count_long == 0 {
        lemma_no_positions(s, Side::Long);
        assert(s.adl_mult_long * 0 == 0) by (nonlinear_arith);
        assert(s.oi_eff_long_q <= s.phantom_dust_bound_long_q);
    }
    if s.stored_pos_count_short == 0 {
        lemma_no_positions(s, Side::Short);
        assert(s.adl_mult_short * 0 == 0) by (nonlinear_arith);
        assert(s.oi_eff_short_q <= s.phantom_dust_bound_short_q);
    }
}

/// A deficit that goes to the other side is borne by its positions. A fall of `K`
/// by `x` charges a position `x` times its weight over `POS_SCALE`; all positions
/// together are charged no less than the deficit, but for the part of it that
/// falls on dust, and no more, but for rounding `K` up. Only a deficit that `K`
/// cannot carry is not charged.
pub proof fn deficit_is_borne_by_positions(s: EngineState, side: Side, d: int)
    requires
        s.interest_backed(),
        0 < d,
        0 < s.oi_eff(side),
    ensures
        ({
                let oi = s.oi_eff(side) as int;
                let x = s.k_side(side) - s.socialize(side, d, oi).k_side(side);
                let (n, m) = fraction_sum(s.weights(side));
                let dk = muldiv_up(d, s.a_side(side) * POS_SCALE, oi);
                ||| x == 0 && (dk > i128::MAX || s.k_side(side) - dk < i128::MIN)
                ||| x == dk && (d * POS_SCALE) * ((oi - s.dust_bound(side)) * m) <= (x * n) * oi <= (d * POS_SCALE) * (oi * m) + n
                    * oi
        }),
{
    let oi = s.oi_eff(side) as int;
    let a = s.a_side(side) as int;
    let (n, m) = fraction_sum(s.weights(side));
    let dk = muldiv_up(d, a * POS_SCALE, oi);
    let p = d * POS_SCALE;
    let num = d * (a * POS_SCALE);
    lemma_sum_is_proper(s.weights(side));
    assert(num == p * a) by (nonlinear_arith)
        requires
            num == d * (a * POS_SCALE),
            p == d * POS_SCALE,
        ;
    assert(0 < num) by (nonlinear_arith)
        requires
            num == d * (a * POS_SCALE),
            0 < d,
            0 < a,
            POS_SCALE == 1_000_000,
        ;
    vstd::arithmetic::div_mod::lemma_fundamental_div_mod(num, oi);
    assert(num <= dk * oi < num + oi) by (nonlinear_arith)
        requires
            num == oi * (num / oi) + num % oi,
            0 <= num % oi < oi,
            dk == if num % oi == 0 {
                num / oi
            } else {
                num / oi + 1
            },
        ;
    assert(0 < dk) by (nonlinear_arith)
        requires
            0 < num <= dk * oi,
            0 < oi,
        ;
    let low = (oi - s.dust_bound(side)) * m;
    assert(low <= a * n) by (nonlinear_arith)
        requires
            oi * m <= a * n + s.dust_bound(side) * m,
            low == (oi - s.dust_bound(side)) * m,
        ;
    assert(p * low <= (dk * n) * oi) by {
        assert(p * low <= p * (a * n)) by (nonlinear_arith)
            requires
                low <= a * n,
                0 < p,
            ;
        assert((p * a) * n <= (dk * oi) * n) by (nonlinear_arith)
            requires
                p * a <= dk * oi,
                0 <= n,
            ;
        assert(p * (a * n) == (p * a) * n) by (nonlinear_arith);
        assert((dk * oi) * n == (dk * n) * oi) by (nonlinear_arith);
    }
    assert((dk * n) * oi <= p * (oi * m) + n * oi) by {
        assert((dk * oi) * n <= (p * a + oi) * n) by (nonlinear_arith)
            requires
                dk * oi <= p * a + oi,
                0 <= n,
            ;
        assert((p * a + oi) * n == p * (a * n) + n * oi) by (nonlinear_arith);
        assert(p * (a * n) <= p * (oi * m)) by (nonlinear_arith)
            requires
                a * n <= oi * m,
                0 < p,
            ;
        assert((dk * oi) * n == (dk * n) * oi) by (nonlinear_arith);
    }
}

} // verus!
