//! What a liquidation does, in plain numbers: who is liquidated, what it costs, who
//! bears what is missing, and how the other side shrinks.

use vstd::prelude::*;
use crate::constants::MAX_OI_SIDE_Q;
use crate::context::CtxState;
use crate::engine::books::{
    adl_keeps_books, fees_within, set_pnl_keeps_books, set_pnl_plain_keeps_books,
};
use crate::engine::guarantees::lemma_adl_spares_own_side;
use crate::engine::laws::lemma_liquidate_touched;
use crate::engine::losses::loss_paid;
use crate::engine::margin_laws::{
    lemma_settled_once, maintenance_margin, margins_are_shares_of_value, lemma_margin_fits, position_is_limited,
};
use crate::engine::worth::{
    ending_leaves_worth, fee_is_paid_or_owed, lemma_charged, lemma_losses_leave_worth,
    lemma_replaced, worth,
};
use crate::model::{params_valid, EngineState};
use crate::types::{side_of, LiquidationPolicy, ReserveMode, Side};
use crate::wide_math::{abs_of, pos_of};

verus! {

/// An account that holds `q` and is worth `w` may be liquidated: it holds something
/// and is worth no more than the maintenance margin of it.
pub open spec fn may_be_liquidated(s: EngineState, q: int, w: int, price: u64) -> bool {
    q != 0 && w <= maintenance_margin(s, q, price)
}

/// The fee for liquidating `q`: a rate of its value at the price, rounded up, and
/// neither below the least nor above the most.
pub open spec fn liquidation_fee_on(s: EngineState, q: int, price: u64) -> int {
    let share = ((q * price / 1_000_000) * s.params.liquidation_fee_bps + 9_999) / 10_000;
    let at_least = if share < s.params.min_liquidation_abs.v {
        s.params.min_liquidation_abs.v as int
    } else {
        share
    };
    if at_least > s.params.liquidation_fee_cap.v {
        s.params.liquidation_fee_cap.v as int
    } else {
        at_least
    }
}

/// The fee of the model is this.
pub proof fn liquidation_fee_is_a_share_of_value(s: EngineState, q: int, price: u64)
    requires
        0 <= q,
    ensures
        s.liquidation_fee(q, price as int) == liquidation_fee_on(s, q, price),
{
    assert(0 <= q * price) by (nonlinear_arith)
        requires
            0 <= q,
            0 <= price,
        ;
}

/// Being above maintenance margin is being worth more than it.
pub proof fn above_margin_is_worth_more(s: EngineState, i: int, price: u64)
    requires
        params_valid(s.params),
        s.interest_backed(),
        0 <= i < s.accounts.len(),
        worth(s.accounts[i]) <= i128::MAX,
    ensures
        s.above_maint(s.accounts[i], i, price as int) <==> worth(s.accounts[i]) > maintenance_margin(s, s.effective_pos(i), price)
            && worth(s.accounts[i]) > 0,
{
    let q = s.effective_pos(i);
    position_is_limited(s, i);
    lemma_margin_fits(s, q, price);
    margins_are_shares_of_value(s, q, price);
}

/// A liquidation of a settled account happens exactly where it may. A full one ends
/// the position. It costs the fee, and what capital and PnL lack is taken off the
/// account. A partial one closes what it says, costs its fee, and leaves the
/// account worth more than the margin of what is left.
pub proof fn liquidation_of_a_settled_account(
    s: EngineState,
    idx: u16,
    price: u64,
    policy: LiquidationPolicy,
    c: CtxState,
)
    requires
        s.books(),
        s.interest_backed(),
        s.losses_paid(),
        params_valid(s.params),
        s.in_use(idx as int),
        worth(s.accounts[idx as int]) <= i128::MAX,
        s.accounts[idx as int].fee_credits.v >= -(i128::MAX / 2),
    ensures
        s.liquidate_touched(idx, price, policy, c) matches Ok(r) ==> {
            let i = idx as int;
            let a = s.accounts[i];
            let b = r.0.accounts[i];
            let q = s.effective_pos(i);
            &&& r.2 == may_be_liquidated(s, q, worth(a), price)
            &&& !r.2 ==> r.0 == s && r.1 == c
            &&& r.2 ==> match policy {
                LiquidationPolicy::FullClose => {
                    let lack = if a.capital.v + a.pnl < 0 {
                        -(a.capital.v + a.pnl)
                    } else {
                        0
                    };
                    &&& b.position_basis_q == 0
                    &&& b.pnl >= 0
                    &&& worth(b) == worth(a) + lack - liquidation_fee_on(s, abs_of(q), price)
                },
                LiquidationPolicy::ExactPartial(x) => {
                    &&& 0 < x < abs_of(q)
                    &&& b.position_basis_q == if q > 0 {
                        q - x
                    } else {
                        q + x
                    }
                    &&& worth(b) == worth(a) - liquidation_fee_on(s, x as int, price)
                    &&& worth(b) > maintenance_margin(s, b.position_basis_q as int, price)
                },
            }
        },
{
    if let Ok(r) = s.liquidate_touched(idx, price, policy, c) {
        let i = idx as int;
        let q0 = s.effective_pos(i);
        above_margin_is_worth_more(s, i, price);
        position_is_limited(s, i);
        lemma_margin_fits(s, q0, price);
        reveal(EngineState::liquidate_touched);
        if r.2 {
            let side = side_of(q0)->0;
            let q = match policy {
                LiquidationPolicy::ExactPartial(x) => x as int,
                LiquidationPolicy::FullClose => abs_of(q0),
            };
            let left = match policy {
                LiquidationPolicy::ExactPartial(x) => if q0 > 0 {
                    q0 - x
                } else {
                    q0 + x
                },
                LiquidationPolicy::FullClose => 0,
            };
            lemma_close(s, i, left as i128, q, price);
            let t = s.close_quantity(i, left as i128, q, price)->Ok_0;
            let d = match policy {
                LiquidationPolicy::ExactPartial(_) => 0,
                LiquidationPolicy::FullClose => t.deficit(i) as u128,
            };
            adl_keeps_books(t, c, side, q as u128, d);
            let u = t.enqueue_adl(c, side, q as u128, d)->Ok_0.0;
            assert(u.accounts[i] == t.accounts[i]);
            match policy {
                LiquidationPolicy::FullClose => {
                    assert(t.effective_pos(i) == 0);
                    set_pnl_plain_keeps_books(u, i, 0, ReserveMode::NoPositiveIncreaseAllowed);
                    lemma_cleared_pnl(u, i);
                },
                LiquidationPolicy::ExactPartial(x) => {
                    lemma_adl_spares_own_side(t, c, side, q as u128, 0);
                    assert(u.effective_pos(i) == left) by {
                        let m = s.a_side(side) as int;
                        vstd::arithmetic::div_mod::lemma_div_multiples_vanish(abs_of(left), m);
                        assert(abs_of(left) * m == m * abs_of(left)) by (nonlinear_arith);
                    }
                    lemma_margin_fits(s, left, price);
                    margins_are_shares_of_value(u, left, price);
                },
            }
        }
    }
}

/// What closing a quantity does to its account.
proof fn lemma_close(s: EngineState, i: int, left: i128, q: int, price: u64)
    requires
        s.books(),
        s.in_use(i),
        0 <= q <= MAX_OI_SIDE_Q,
        params_valid(s.params),
        loss_paid(s.accounts[i]),
        s.accounts[i].fee_credits.v >= -(i128::MAX / 2),
    ensures
        s.close_quantity(i, left, q, price) matches Ok(t) ==> {
            let a = s.accounts[i];
            let b = t.accounts[i];
            &&& t.books()
            &&& t.in_use(i)
            &&& worth(b) == worth(a) - liquidation_fee_on(s, q, price)
            &&& b.position_basis_q == left
            &&& left != 0 ==> b.adl_a_basis == s.a_side(side_of(left as int)->0) && b.adl_epoch_snap == s.epoch_side(
                side_of(left as int)->0,
            )
            &&& b.pnl == a.pnl
            &&& t.params == s.params
            &&& t.a_side(Side::Long) == s.a_side(Side::Long) && t.a_side(Side::Short) == s.a_side(Side::Short)
            &&& t.epoch_side(Side::Long) == s.epoch_side(Side::Long) && t.epoch_side(Side::Short) == s.epoch_side(Side::Short)
        },
{
    if let Ok(t) = s.close_quantity(i, left, q, price) {
        lemma_replaced(s, i, left);
        let s1 = s.attach_position(i, left)->Ok_0;
        lemma_losses_leave_worth(s1, i);
        reveal(EngineState::settle_losses);
        reveal(EngineState::attach_position);
        assert(s1.accounts[i].pnl == s.accounts[i].pnl && s1.accounts[i].capital == s.accounts[i].capital);
        let s2 = s1.settle_losses(i)->Ok_0;
        assert(s2 == s1);
        liquidation_fee_is_a_share_of_value(s, q, price);
        let fee = s2.liquidation_fee(q, price as int);
        assert(0 <= fee <= u128::MAX) by {
            assert(0 <= q * price) by (nonlinear_arith)
                requires
                    0 <= q,
                    0 <= price,
                ;
            let v = q * price / 1_000_000;
            assert(0 <= v * s.params.liquidation_fee_bps) by (nonlinear_arith)
                requires
                    0 <= v,
                    0 <= s.params.liquidation_fee_bps,
                ;
        }
        lemma_charged(s2, i, fee as u128);
        fee_is_paid_or_owed_at(s2, i, fee as u128);
    }
}

proof fn fee_is_paid_or_owed_at(s: EngineState, i: int, fee: u128)
    requires
        s.books(),
        s.in_use(i),
    ensures
        s.charge_fee(i, fee) matches Ok(r) ==> r.0.accounts[i].pnl == s.accounts[i].pnl,
{
    assert(fees_within(s.accounts[i], s.fee_limit()));
    fee_is_paid_or_owed(s, i, fee);
}

/// Taking a shortfall off an account.
proof fn lemma_cleared_pnl(s: EngineState, i: int)
    requires
        s.books(),
        s.in_use(i),
    ensures
        s.set_pnl_plain(i, 0, ReserveMode::NoPositiveIncreaseAllowed) matches Ok(t) ==> t.accounts[i].pnl == 0
            && t.accounts[i].capital == s.accounts[i].capital && t.accounts[i].fee_credits == s.accounts[i].fee_credits
            && t.accounts[i].position_basis_q == s.accounts[i].position_basis_q,
{
    set_pnl_keeps_books(s, i, 0, ReserveMode::NoPositiveIncreaseAllowed, CtxState::fresh(0, 0));
}

/// Whether a liquidation happens is decided on the settled account: exactly where
/// it holds a position and is worth no more than its maintenance margin.
pub proof fn liquidation_happens_where_margin_is_short(
    s: EngineState,
    idx: u16,
    now: u64,
    price: u64,
    policy: LiquidationPolicy,
    rate: i128,
    h_min: u64,
    h_max: u64,
)
    requires
        s.in_order(),
    ensures
        s.liquidate(idx, now, price, policy, rate, h_min, h_max) matches Ok(r) ==> {
            let i = idx as int;
            let m = s.start_live(i, price, now, rate, h_min, h_max)->Ok_0.0;
            worth(m.accounts[i]) <= i128::MAX && m.accounts[i].fee_credits.v >= -(i128::MAX / 2) ==> {
                &&& r.1 == may_be_liquidated(s, m.effective_pos(i), worth(m.accounts[i]), price)
                &&& !r.1 ==> worth(r.0.accounts[i]) == worth(m.accounts[i]) && r.0.accounts[i].position_basis_q
                    == m.accounts[i].position_basis_q
                &&& r.1 && policy == LiquidationPolicy::FullClose ==> r.0.accounts[i].position_basis_q == 0 && worth(
                    r.0.accounts[i],
                ) == worth(m.accounts[i]) + pos_of(-(m.accounts[i].capital.v + m.accounts[i].pnl)) - liquidation_fee_on(
                    s,
                    abs_of(m.effective_pos(i)),
                    price,
                )
            }
        },
{
    reveal(EngineState::liquidate);
    if let Ok(r) = s.liquidate(idx, now, price, policy, rate, h_min, h_max) {
        let i = idx as int;
        lemma_settled_once(s, i, price, now, rate, h_min, h_max);
        let r1 = s.start_live(i, price, now, rate, h_min, h_max)->Ok_0;
        let m = r1.0;
        if worth(m.accounts[i]) <= i128::MAX && m.accounts[i].fee_credits.v >= -(i128::MAX / 2) {
            liquidation_of_a_settled_account(m, idx, price, policy, r1.1);
            lemma_liquidate_touched(m, idx, price, policy, r1.1);
            let r2 = m.liquidate_touched(idx, price, policy, r1.1)->Ok_0;
            ending_leaves_worth(r2.0, r2.1, i);
        }
    }
}

} // verus!
