//! What margin is for, in plain numbers: whoever takes on risk or takes out funds
//! is left with enough worth for the position that remains.

use vstd::prelude::*;
use vstd::arithmetic::div_mod::lemma_fundamental_div_mod;
use crate::constants::{MAX_ACCOUNTS, MAX_ACCOUNT_NOTIONAL, MAX_OI_SIDE_Q};
use crate::context::{touch_adds_one, CtxState};
use crate::engine::books::{
    accrue_keeps_books, capital_within_total, consume_released_keeps_books,
    set_capital_keeps_books, sweep_keeps_books, fees_within, finish_touched_keeps_books,
    touch_keeps_books, touched_in_use,
};
use crate::engine::equity::lemma_haircut_shrinks;
use crate::engine::laws::lemma_start;
use crate::engine::losses::{lemma_started, lemma_touched, lemma_traded, loss_paid};
use crate::engine::open_interest::{
    finishing_keeps_interest, lemma_fees_are_apart, lemma_touch, on_side, position_is_within_interest, same_position, unchanged_interest_is_backed};
use crate::engine::trade::{exact, TradeLeg};
use crate::engine::worth::{ending_leaves_worth, legs_of_a_trade, trading_fee_on, worth};
use crate::int128::U128;
use crate::model::{params_valid, EngineState};
use crate::types::{side_of, Account, Side, SideMode};
use crate::wide_math::{abs_of, min_of, pos_of, pow128, I256, U256};

verus! {

/// The margin of a position: a rate, in basis points, of its value at a price, and
/// at least a floor. No position needs none.
pub open spec fn margin_on(q: int, price: u64, bps: u64, floor: u128) -> int {
    let value = (if q < 0 {
            -q
        } else {
            q
    }) * price / 1_000_000;
    let share = value * bps / 10_000;
    if q == 0 {
        0
    } else if share < floor {
        floor as int
    } else {
        share
    }
}

/// The initial margin of a position under the parameters of `s`.
pub open spec fn initial_margin(s: EngineState, q: int, price: u64) -> int {
    margin_on(q, price, s.params.initial_margin_bps, s.params.min_nonzero_im_req)
}

/// The maintenance margin of a position under the parameters of `s`.
pub open spec fn maintenance_margin(s: EngineState, q: int, price: u64) -> int {
    margin_on(q, price, s.params.maintenance_margin_bps, s.params.min_nonzero_mm_req)
}

/// The worth of account `i` that counts for initial margin: of its profit, only the
/// matured part, in the share that the vault covers beyond capital and insurance.
pub open spec fn sure_worth(s: EngineState, i: int) -> int {
    let a = s.accounts[i];
    let profit = if a.pnl > 0 {
        a.pnl as int
    } else {
        0
    };
    let matured = if profit > a.reserved_pnl {
        profit - a.reserved_pnl
    } else {
        0
    };
    let spare = s.vault.v - s.c_tot.v - s.insurance_fund.balance.v;
    let all = s.pnl_matured_pos_tot as int;
    let counted = if all == 0 {
        matured
    } else if spare <= 0 {
        0
    } else if spare < all {
        matured * spare / all
    } else {
        matured
    };
    worth(a) - profit + counted
}

/// The margins of the model are these.
pub proof fn margins_are_shares_of_value(s: EngineState, q: int, price: u64)
    ensures
        s.mm_for(q, price as int) == maintenance_margin(s, q, price),
        s.im_for(q, price as int) == initial_margin(s, q, price),
{
}

/// The equity for initial margin is this.
pub proof fn equity_counts_what_is_sure(s: EngineState, i: int)
    ensures
        s.equity_init(s.accounts[i], i) == sure_worth(s, i),
        s.accounts[i].equity_maint() == worth(s.accounts[i]),
{
    let all = s.pnl_matured_pos_tot as int;
    let m = s.released(i);
    if all > 0 {
        vstd::arithmetic::div_mod::lemma_div_multiples_vanish(m, all);
        assert(m * all == all * m) by (nonlinear_arith);
        assert(m * 0 == 0);
        assert(0int / all == 0) by (nonlinear_arith)
            requires
                all > 0,
            ;
    } else {
        assert(m * 1 / 1 == m);
    }
}

/// The market accrued and both accounts of a trade settled.
pub open spec fn both_settled(
    s: EngineState,
    a: u16,
    b: u16,
    price: u64,
    now: u64,
    rate: i128,
    h_min: u64,
    h_max: u64,
) -> EngineState {
    let r = s.start_live(a as int, price, now, rate, h_min, h_max)->Ok_0;
    r.0.touch(b as int, r.1)->Ok_0.0
}

/// What a trade that succeeds leaves of one of its accounts, whose position goes
/// from `old_q` to `new_q`: `was` before and `is` after, with the gain of the trade
/// and the fee that it paid.
pub open spec fn margin_kept(
    s: EngineState,
    price: u64,
    old_q: int,
    new_q: int,
    was: int,
    is: int,
    gain: int,
    fee: int,
) -> bool {
    let more = abs_of(new_q) > abs_of(old_q) || (old_q < 0 < new_q) || (new_q < 0 < old_q);
    if new_q == 0 {
        // Closing out deepens no shortfall, but for the fee.
        is + fee >= 0 || is + fee >= was
    } else if more {
        // More risk needs initial margin, and the gain of the trade does not count.
        is - (if gain > 0 {
                gain
            } else {
                0
        }) >= initial_margin(s, new_q, price)
    } else {
        ||| is > maintenance_margin(s, new_q, price)
        // Below maintenance margin a smaller position is better than a larger one.
        ||| abs_of(new_q) < abs_of(old_q) && is + fee - maintenance_margin(s, new_q, price) > was - maintenance_margin(
            s,
            old_q,
            price,
        ) && (is + fee >= 0 || is + fee >= was)
    }
}

proof fn lemma_margin_bound(s: EngineState, q: int, price: u64)
    requires
        params_valid(s.params),
        abs_of(q) * price / 1_000_000 <= MAX_ACCOUNT_NOTIONAL,
        0 <= abs_of(q) * price / 1_000_000,
    ensures
        0 <= maintenance_margin(s, q, price) <= initial_margin(s, q, price) < i128::MAX,
        q != 0 ==> 0 < maintenance_margin(s, q, price),
{
    let n = abs_of(q) * price / 1_000_000;
    lemma_haircut_shrinks(n, s.params.initial_margin_bps as int, 10_000);
    lemma_haircut_shrinks(n, s.params.maintenance_margin_bps as int, 10_000);
    assert(n * s.params.maintenance_margin_bps <= n * s.params.initial_margin_bps) by (nonlinear_arith)
        requires
            0 <= n,
            s.params.maintenance_margin_bps <= s.params.initial_margin_bps,
        ;
}

/// Margin after one leg of a trade.
proof fn lemma_leg_margin(p: EngineState, i: int, price: u64, leg: TradeLeg, was: int)
    requires
        params_valid(p.params),
        p.effective_pos(i) == leg.new_q,
        loss_paid(p.accounts[i]),
        p.accounts[i].fee_credits.v > i128::MIN,
        leg.equity_pre@ == was,
        EngineState::position_ok(leg.new_q as int, price as int),
        p.trade_margin_ok(i, price, leg),
        leg.new_q == 0 ==> p.accounts[i].pnl >= 0,
    ensures
        margin_kept(
            p,
            price,
            leg.old_q as int,
            leg.new_q as int,
            was,
            worth(p.accounts[i]),
            leg.trade_pnl as int,
            leg.fee_impact as int,
        ),
{
    let q = leg.new_q as int;
    let a = p.accounts[i];
    margins_are_shares_of_value(p, q, price);
    margins_are_shares_of_value(p, leg.old_q as int, price);
    assert(0 <= abs_of(q) * price) by (nonlinear_arith)
        requires
            0 <= abs_of(q),
            0 <= price,
        ;
    lemma_margin_bound(p, q, price);
    let gain = pos_of(leg.trade_pnl as int);
    let pos = pos_of(a.pnl as int);
    let pos_open = pos_of(pos - gain);
    let tot = p.pnl_pos_tot - pos + pos_open;
    if q != 0 && p.pnl_pos_tot >= pos && tot > 0 {
        lemma_haircut_shrinks(pos_open, min_of(p.residual(), tot), tot);
    }
}

/// A trade moves worth and positions between the two that trade, and leaves both
/// with margin. Worth is counted from when both are settled. The buyer gains what
/// the execution price is below the oracle price, on `size`; the seller loses it.
/// Each pays the fee, which is exact unless it owes more fees than can be counted.
pub proof fn trade_moves_worth_and_keeps_margin(
    s: EngineState,
    a: u16,
    b: u16,
    price: u64,
    now: u64,
    size: i128,
    exec_price: u64,
    rate: i128,
    h_min: u64,
    h_max: u64,
)
    requires
        s.in_order(),
    ensures
        s.execute_trade(a, b, price, now, size, exec_price, rate, h_min, h_max) matches Ok(t) ==> {
            let m = both_settled(s, a, b, price, now, rate, h_min, h_max);
            let i = a as int;
            let j = b as int;
            let gain = (size * (price - exec_price)) / 1_000_000;
            let fee = trading_fee_on(s, size, exec_price);
            let fee_a = worth(m.accounts[i]) + gain - worth(t.accounts[i]);
            let fee_b = worth(m.accounts[j]) - gain - worth(t.accounts[j]);
            let q_a = m.effective_pos(i);
            let q_b = m.effective_pos(j);
            &&& 0 < size
            &&& 0 <= fee_a <= fee && 0 <= fee_b <= fee
            &&& m.accounts[i].fee_credits.v >= -(i128::MAX / 2) ==> fee_a == fee
            &&& m.accounts[j].fee_credits.v >= -(i128::MAX / 2) ==> fee_b == fee
            &&& t.accounts[i].position_basis_q == q_a + size
            &&& t.accounts[j].position_basis_q == q_b - size
            &&& margin_kept(s, price, q_a, q_a + size, worth(m.accounts[i]), worth(t.accounts[i]), gain, fee_a)
            &&& margin_kept(s, price, q_b, q_b - size, worth(m.accounts[j]), worth(t.accounts[j]), -gain, fee_b)
        },
{
    if let Ok(t) = s.execute_trade(a, b, price, now, size, exec_price, rate, h_min, h_max) {
        reveal(EngineState::execute_trade);
        let i = a as int;
        let j = b as int;
        lemma_both_settled(s, a, b, price, now, rate, h_min, h_max);
        let r1 = s.start_live(i, price, now, rate, h_min, h_max)->Ok_0;
        let r2 = r1.0.touch(j, r1.1)->Ok_0;
        let m = r2.0;
        let eq_a = exact(m.accounts[i].equity_maint());
        let eq_b = exact(m.accounts[j].equity_maint());
        lemma_exact(m.accounts[i]);
        lemma_exact(m.accounts[j]);
        legs_of_a_trade(m, r2.1, i, j, price, size, exec_price, eq_a, eq_b);
        lemma_traded(m, r2.1, i, j, price, size, exec_price, eq_a, eq_b);
        let p = m.apply_trade(r2.1, i, j, price, size, exec_price, eq_a, eq_b)->Ok_0;
        lemma_legs_checked(m, r2.1, i, j, price, size, exec_price, eq_a, eq_b);
        assert(loss_paid(p.0.accounts[i]));
        assert(loss_paid(p.0.accounts[j]));
        assert(fees_within(p.0.accounts[i], p.0.fee_limit()));
        assert(fees_within(p.0.accounts[j], p.0.fee_limit()));
        lemma_leg_margin(p.0, i, price, p.2, worth(m.accounts[i]));
        lemma_leg_margin(p.0, j, price, p.3, worth(m.accounts[j]));
        ending_leaves_worth(p.0, p.1, i);
        ending_leaves_worth(p.0, p.1, j);
    }
}

proof fn lemma_exact(a: Account)
    ensures
        exact(a.equity_maint())@ == worth(a),
        exact(a.equity_maint()).wf(),
{
    let v = a.equity_maint();
    let w = I256 { neg: v < 0, mag: U256 { hi: (abs_of(v) / pow128()) as u128, lo: (abs_of(v) % pow128()) as u128 } };
    assert(w.wf() && w@ == v);
}

/// What holds once both accounts of a trade are settled.
proof fn lemma_both_settled(s: EngineState, a: u16, b: u16, price: u64, now: u64, rate: i128, h_min: u64, h_max: u64)
    requires
        s.in_order(),
        a != b,
        s.start_live(a as int, price, now, rate, h_min, h_max) is Ok,
        ({
                let r = s.start_live(a as int, price, now, rate, h_min, h_max)->Ok_0;
                r.0.touch(b as int, r.1) is Ok
        }),
    ensures
        ({
                let r = s.start_live(a as int, price, now, rate, h_min, h_max)->Ok_0;
                let r2 = r.0.touch(b as int, r.1)->Ok_0;
                &&& r2.0.books()
                &&& r2.0.interest_backed()
                &&& r2.0.losses_paid()
                &&& r2.0.in_use(a as int) && r2.0.in_use(b as int)
                &&& r2.0.params == s.params
                &&& touched_in_use(r2.0, r2.1)
        }),
{
    let i = a as int;
    let j = b as int;
    lemma_settled_once(s, i, price, now, rate, h_min, h_max);
    let r = s.start_live(i, price, now, rate, h_min, h_max)->Ok_0;
    lemma_touch(r.0, j, r.1);
    touch_keeps_books(r.0, j, r.1);
    lemma_touched(r.0, j, r.1);
    touch_adds_one(r.1, b);
    reveal(EngineState::touch);
    let r2 = r.0.touch(j, r.1)->Ok_0;
    assert forall|k: int| 0 <= k < r2.1.touched.len() implies r2.0.in_use(#[trigger] r2.1.touched[k] as int) by {
        assert(r2.1.touched[k] == b || r.1.touched.contains(r2.1.touched[k]));
    }
}

/// What holds once the account of an instruction is settled.
pub proof fn lemma_settled_once(s: EngineState, i: int, price: u64, now: u64, rate: i128, h_min: u64, h_max: u64)
    requires
        s.in_order(),
    ensures
        s.start_live(i, price, now, rate, h_min, h_max) matches Ok(r) ==> {
            &&& r.0.books()
            &&& r.0.interest_backed()
            &&& r.0.losses_paid()
            &&& r.0.in_use(i)
            &&& r.0.params == s.params
            &&& r.0.vault == s.vault
            &&& touched_in_use(r.0, r.1)
            &&& r.1.touched == seq![i as u16]
        },
{
    if let Ok(r) = s.start_live(i, price, now, rate, h_min, h_max) {
        lemma_start(s, i, price, now, rate, h_min, h_max);
        accrue_keeps_books(s, now, price, rate);
        reveal(EngineState::accrue);
        let s1 = s.accrue(now, price, rate)->Ok_0;
        assert(s.same_interest(s1));
        unchanged_interest_is_backed(s, s1);
        lemma_touch(s1, i, CtxState::fresh(h_min, h_max));
        lemma_started(s, i, price, now, rate, h_min, h_max);
    }
}

proof fn lemma_legs_checked(
    s: EngineState,
    c: CtxState,
    a: int,
    b: int,
    price: u64,
    size: i128,
    exec_price: u64,
    eq_a: I256,
    eq_b: I256,
)
    ensures
        s.apply_trade(c, a, b, price, size, exec_price, eq_a, eq_b) matches Ok(r) ==> {
            &&& r.2.equity_pre == eq_a && r.3.equity_pre == eq_b
            &&& r.2.new_q == 0 ==> r.0.accounts[a].pnl >= 0
            &&& r.3.new_q == 0 ==> r.0.accounts[b].pnl >= 0
            &&& EngineState::position_ok(s.effective_pos(a) + size, price as int)
            &&& EngineState::position_ok(s.effective_pos(b) - size, price as int)
        },
{
    reveal(EngineState::apply_trade);
}

/// The end of an instruction leaves a position as it is, or ends it together with
/// its epoch.
proof fn lemma_end_leaves_position(s: EngineState, c: CtxState, i: int)
    requires
        s.interest_backed(),
        0 <= i < s.accounts.len(),
    ensures
        s.end_instruction(c) matches Ok(t) ==> t.accounts == s.accounts && (t.effective_pos(i) == s.effective_pos(i)
                || t.effective_pos(i) == 0) && t.vault == s.vault && t.c_tot == s.c_tot && t.insurance_fund == s.insurance_fund
            && t.pnl_matured_pos_tot == s.pnl_matured_pos_tot && t.params == s.params,
{
    reveal(EngineState::schedule_resets);
    reveal(EngineState::finalize_resets);
    let a = s.accounts[i];
    if a.position_basis_q != 0 {
        let side = side_of(a.position_basis_q as int)->0;
        assert(on_side(s.accounts[i], side));
    }
}

/// A withdrawal takes its amount from the worth of its account, and leaves it with
/// initial margin: where a position remains, the sure worth afterwards is at least
/// the initial margin of that position. Worth is counted from when the account is
/// settled.
pub proof fn withdrawal_leaves_margin(
    s: EngineState,
    idx: u16,
    amount: u128,
    price: u64,
    now: u64,
    rate: i128,
    h_min: u64,
    h_max: u64,
)
    requires
        s.in_order(),
    ensures
        s.withdraw(idx, amount, price, now, rate, h_min, h_max) matches Ok(t) ==> {
            let i = idx as int;
            let m = s.start_live(i, price, now, rate, h_min, h_max)->Ok_0.0;
            &&& worth(t.accounts[i]) == worth(m.accounts[i]) - amount
            &&& t.effective_pos(i) != 0 ==> sure_worth(t, i) >= initial_margin(s, t.effective_pos(i), price)
            &&& t.accounts[i].capital.v == 0 || t.accounts[i].capital.v >= s.params.min_initial_deposit.v
        },
{
    reveal(EngineState::withdraw);
    if let Ok(t) = s.withdraw(idx, amount, price, now, rate, h_min, h_max) {
        let i = idx as int;
        lemma_settled_once(s, i, price, now, rate, h_min, h_max);
        let r = s.start_live(i, price, now, rate, h_min, h_max)->Ok_0;
        ending_leaves_worth(r.0, r.1, i);
        finish_touched_keeps_books(r.0, r.1);
        finishing_keeps_interest(r.0, r.1);
        let s1 = r.0.finish_touched(r.1)->Ok_0;
        unchanged_interest_is_backed(r.0, s1);
        capital_within_total(s1.accounts, i);
        let s2 = s1.set_capital(i, (s1.accounts[i].capital.v - amount) as u128)->Ok_0;
        let s3 = EngineState { vault: U128 { v: (s2.vault.v - amount) as u128 }, ..s2 };
        assert(s1.same_interest(s3));
        unchanged_interest_is_backed(s1, s3);
        lemma_end_leaves_position(s3, r.1, i);
        assert(s3.effective_pos(i) == s1.effective_pos(i));
        let q = s1.effective_pos(i);
        margins_are_shares_of_value(s1, q, price);
        equity_counts_what_is_sure(s1, i);
        equity_counts_what_is_sure(t, i);
        assert(s3.vault.v - s3.c_tot.v == s1.vault.v - s1.c_tot.v);
        assert(sure_worth(t, i) == sure_worth(s1, i) - amount);
        if t.effective_pos(i) != 0 {
            assert(amount <= s.vault.v);
            assert(0 <= initial_margin(s, q, price)) by {
                lemma_margin_is_not_negative(q, price, s.params.initial_margin_bps, s.params.min_nonzero_im_req);
            }
        }
    }
}

proof fn lemma_margin_is_not_negative(q: int, price: u64, bps: u64, floor: u128)
    ensures
        0 <= margin_on(q, price, bps, floor),
{
}

/// Converting `x` of matured profit gives the account the covered share of it, and
/// takes nothing else. Worth is counted from when the account is settled. With a
/// position it is left above maintenance margin, and without one with no shortfall.
pub proof fn conversion_pays_the_covered_share(
    s: EngineState,
    idx: u16,
    x: u128,
    price: u64,
    now: u64,
    rate: i128,
    h_min: u64,
    h_max: u64,
)
    requires
        s.in_order(),
    ensures
        s.convert_released(idx, x, price, now, rate, h_min, h_max) matches Ok(t) ==> {
            let i = idx as int;
            let m = s.start_live(i, price, now, rate, h_min, h_max)->Ok_0.0;
            let a = m.accounts[i];
            let spare = m.vault.v - m.c_tot.v - m.insurance_fund.balance.v;
            let all = m.pnl_matured_pos_tot as int;
            let y = worth(t.accounts[i]) - worth(a) + x;
            &&& 0 < x
            &&& x + a.reserved_pnl <= a.pnl
            &&& x <= all
            &&& spare >= all ==> y == x
            &&& 0 <= spare < all ==> y * all <= x * spare < (y + 1) * all
            &&& spare <= 0 ==> y == 0
            &&& t.effective_pos(i) != 0 ==> worth(t.accounts[i]) > maintenance_margin(s, t.effective_pos(i), price)
            &&& a.position_basis_q == 0 ==> worth(t.accounts[i]) >= 0
        },
{
    reveal(EngineState::convert_released);
    if let Ok(t) = s.convert_released(idx, x, price, now, rate, h_min, h_max) {
        let i = idx as int;
        lemma_settled_once(s, i, price, now, rate, h_min, h_max);
        let r = s.start_live(i, price, now, rate, h_min, h_max)->Ok_0;
        let s1 = r.0;
        let h = s1.haircut();
        let y = x as int * h.0 / h.1;
        reveal(EngineState::consume_released);
        let s2 = s1.consume_released(i, x)->Ok_0;
        consume_released_keeps_books(s1, i, x);
        let cap = (s2.accounts[i].capital.v + y) as u128;
        set_capital_keeps_books(s2, i, cap);
        let s3 = s2.set_capital(i, cap)->Ok_0;
        sweep_keeps_books(s3, i);
        assert(fees_within(s3.accounts[i], s3.fee_limit()));
        lemma_fees_are_apart(s3, i, 0);
        let s4 = s3.sweep_fee_debt(i)->Ok_0;
        assert(worth(s4.accounts[i]) == worth(s3.accounts[i])) by {
            reveal(EngineState::sweep_fee_debt);
        }
        assert(s1.same_interest(s4));
        unchanged_interest_is_backed(s1, s4);
        assert(touched_in_use(s4, r.1));
        ending_leaves_worth(s4, r.1, i);
        finishing_keeps_interest(s4, r.1);
        let s5 = s4.finish_touched(r.1)->Ok_0;
        unchanged_interest_is_backed(s4, s5);
        lemma_end_leaves_position(s5, r.1, i);
        assert(same_position(s4.accounts[i], s5.accounts[i]));
        assert(s5.effective_pos(i) == s4.effective_pos(i));
        let q = s4.effective_pos(i);
        margins_are_shares_of_value(s4, q, price);
        assert(s1.accounts[i].pnl >= x + s1.accounts[i].reserved_pnl);
        assert(y >= 0 && worth(s4.accounts[i]) == worth(s1.accounts[i]) - x + y) by {
            lemma_haircut_shrinks(x as int, h.0, h.1);
        }
        let all = s1.pnl_matured_pos_tot as int;
        let spare = s1.vault.v - s1.c_tot.v - s1.insurance_fund.balance.v;
        vstd::arithmetic::div_mod::lemma_fundamental_div_mod(x * h.0, h.1);
        if spare >= all {
            vstd::arithmetic::div_mod::lemma_div_multiples_vanish(x as int, all);
            assert(x * all == all * x) by (nonlinear_arith);
        } else if spare > 0 {
            assert(y * all <= x * spare < (y + 1) * all) by (nonlinear_arith)
                requires
                    x * spare == all * y + (x * spare) % all,
                    0 <= (x * spare) % all < all,
                ;
        } else {
            assert(x * 0 == 0);
            assert(0int / all == 0) by (nonlinear_arith)
                requires
                    all > 0,
                ;
            assert(y == 0);
            assert(0 * all == 0 && (0 + 1) * all == all);
        }
        assert(worth(t.accounts[i]) == worth(s4.accounts[i]));
        assert(x <= all);
        if s1.accounts[i].position_basis_q == 0 {
            assert(s4.accounts[i].position_basis_q == 0);
            assert(worth(s4.accounts[i]) >= 0);
        }
        if t.effective_pos(i) != 0 {
            position_is_limited(s4, i);
            lemma_margin_fits(s, q, price);
        }
    }
}

/// A position of a backed market is within the limit.
pub proof fn position_is_limited(s: EngineState, i: int)
    requires
        s.interest_backed(),
        0 <= i < s.accounts.len(),
    ensures
        abs_of(s.effective_pos(i)) <= MAX_OI_SIDE_Q,
{
    position_is_within_interest(s, i, Side::Long);
    position_is_within_interest(s, i, Side::Short);
}

/// The margin of such a position fits.
pub proof fn lemma_margin_fits(s: EngineState, q: int, price: u64)
    requires
        params_valid(s.params),
        abs_of(q) <= MAX_OI_SIDE_Q,
    ensures
        0 <= maintenance_margin(s, q, price) <= initial_margin(s, q, price) < i128::MAX,
        q != 0 ==> 0 < maintenance_margin(s, q, price),
{
    let n = abs_of(q);
    assert(0 <= n * price <= MAX_OI_SIDE_Q * u64::MAX) by (nonlinear_arith)
        requires
            0 <= n <= MAX_OI_SIDE_Q,
            0 <= price <= u64::MAX,
        ;
    let v = n * price / 1_000_000;
    lemma_haircut_shrinks(v, s.params.initial_margin_bps as int, 10_000);
    lemma_haircut_shrinks(v, s.params.maintenance_margin_bps as int, 10_000);
    assert(v * s.params.maintenance_margin_bps <= v * s.params.initial_margin_bps) by (nonlinear_arith)
        requires
            0 <= v,
            s.params.maintenance_margin_bps <= s.params.initial_margin_bps,
        ;
}

/// Closing an account pays out exactly what it is worth once it is settled.
pub proof fn closing_pays_the_worth(
    s: EngineState,
    idx: u16,
    now: u64,
    price: u64,
    rate: i128,
    h_min: u64,
    h_max: u64,
)
    requires
        s.in_order(),
    ensures
        s.close_account(idx, now, price, rate, h_min, h_max) matches Ok(r) ==> {
            let m = s.start_live(idx as int, price, now, rate, h_min, h_max)->Ok_0.0;
            &&& r.1 == worth(m.accounts[idx as int])
            &&& m.effective_pos(idx as int) == 0
            &&& m.accounts[idx as int].reserved_pnl == 0
        },
{
    reveal(EngineState::close_account);
    if let Ok(r) = s.close_account(idx, now, price, rate, h_min, h_max) {
        let i = idx as int;
        lemma_settled_once(s, i, price, now, rate, h_min, h_max);
        let m = s.start_live(i, price, now, rate, h_min, h_max)->Ok_0;
        ending_leaves_worth(m.0, m.1, i);
        finish_touched_keeps_books(m.0, m.1);
        let s1 = m.0.finish_touched(m.1)->Ok_0;
        finishing_keeps_interest(m.0, m.1);
        assert(same_position(m.0.accounts[i], s1.accounts[i]));
        assert(s1.effective_pos(i) == m.0.effective_pos(i));
        assert(fees_within(s1.accounts[i], s1.fee_limit()));
        lemma_finish_keeps_reserve(m.0, m.1, i);
    }
}

/// Finishing accounts leaves reserves alone.
proof fn lemma_finish_keeps_reserve(s: EngineState, c: CtxState, i: int)
    requires
        s.books(),
        touched_in_use(s, c),
        0 <= i < s.accounts.len(),
    ensures
        s.finish_touched(c) matches Ok(t) ==> t.accounts[i].reserved_pnl == s.accounts[i].reserved_pnl,
{
    reveal(EngineState::finish_touched);
    lemma_finish_keeps_reserves(s, c.touched, s.is_whole(), c.touched.len(), i);
}

proof fn lemma_finish_keeps_reserves(s: EngineState, order: Seq<u16>, whole: bool, n: nat, i: int)
    requires
        s.accounts.len() == MAX_ACCOUNTS,
        n <= order.len(),
        0 <= i < s.accounts.len(),
        forall|k: int| 0 <= k < order.len() ==> s.in_use(#[trigger] order[k] as int),
    ensures
        s.finish_accounts(order, whole, n) matches Ok(t) ==> t.accounts[i].reserved_pnl == s.accounts[i].reserved_pnl
            && t.accounts.len() == s.accounts.len(),
    decreases n,
{
    if n > 0 {
        lemma_finish_keeps_reserves(s, order, whole, (n - 1) as nat, i);
        reveal(EngineState::finish_account);
        reveal(EngineState::consume_released);
        reveal(EngineState::sweep_fee_debt);
        assert(s.in_use(order[n - 1] as int));
    }
}

/// The worth of an account `a` that counts for opening a trade which gains it
/// `trade_pnl`: the gain itself does not count, and other profit in the share that
/// the vault covers beyond capital and insurance.
pub open spec fn open_worth(s: EngineState, a: Account, trade_pnl: int) -> int {
    let gain = if trade_pnl > 0 {
        trade_pnl
    } else {
        0
    };
    let profit = if a.pnl > 0 {
        a.pnl as int
    } else {
        0
    };
    let kept = if profit > gain {
        profit - gain
    } else {
        0
    };
    let all = s.pnl_pos_tot - profit + kept;
    let spare = s.vault.v - s.c_tot.v - s.insurance_fund.balance.v;
    let counted = if all == 0 || spare >= all {
        kept
    } else if spare <= 0 {
        0
    } else {
        kept * spare / all
    };
    worth(a) - gain - kept + counted
}

/// The equity of the model for opening a trade is this.
pub proof fn trade_equity_leaves_out_the_gain(s: EngineState, a: Account, trade_pnl: int)
    requires
        a.pnl - pos_of(trade_pnl) >= i128::MIN,
        pos_of(a.pnl as int) <= s.pnl_pos_tot,
    ensures
        s.equity_trade_open(a, trade_pnl) == if i128::MIN <= open_worth(s, a, trade_pnl) <= i128::MAX {
            open_worth(s, a, trade_pnl)
        } else {
            i128::MIN + 1
        },
{
    let gain = pos_of(trade_pnl);
    let profit = pos_of(a.pnl as int);
    let kept = pos_of(profit - gain);
    let all = s.pnl_pos_tot - profit + kept;
    let spare = s.vault.v - s.c_tot.v - s.insurance_fund.balance.v;
    if all > 0 {
        if spare >= all {
            vstd::arithmetic::div_mod::lemma_div_multiples_vanish(kept, all);
            assert(kept * all == all * kept) by (nonlinear_arith);
        } else if spare <= 0 {
            assert(kept * 0 == 0);
            assert(0int / all == 0) by (nonlinear_arith)
                requires
                    all > 0,
                ;
        }
    }
}

/// Opening a trade needs initial margin, meeting it is having the sure worth, and a
/// withdrawal is within margin exactly where that much is left.
pub proof fn margin_checks_compare_worth(s: EngineState, i: int, amount: u128, price: u64)
    requires
        params_valid(s.params),
        s.interest_backed(),
        0 <= i < s.accounts.len(),
        -i128::MAX / 2 <= sure_worth(s, i) <= i128::MAX / 2,
        amount <= 10_000_000_000_000_000,
    ensures
        s.above_init(s.accounts[i], i, price as int) <==> sure_worth(s, i) >= initial_margin(s, s.effective_pos(i), price),
        s.withdrawal_margin_ok(i, amount, price) <==> s.effective_pos(i) == 0 || sure_worth(s, i) - amount >= initial_margin(
            s,
            s.effective_pos(i),
            price,
        ),
{
    let q = s.effective_pos(i);
    position_is_limited(s, i);
    lemma_margin_fits(s, q, price);
    margins_are_shares_of_value(s, q, price);
    equity_counts_what_is_sure(s, i);
}

/// The margin check of a trade accepts what [`margin_kept`] says and, for a trade
/// that takes on risk, exactly where the open worth is the initial margin.
pub proof fn trade_check_is_exact(s: EngineState, i: int, price: u64, leg: TradeLeg)
    requires
        params_valid(s.params),
        s.effective_pos(i) == leg.new_q,
        abs_of(leg.new_q as int) <= MAX_OI_SIDE_Q,
        pos_of(s.accounts[i].pnl as int) <= s.pnl_pos_tot,
        s.accounts[i].pnl - pos_of(leg.trade_pnl as int) >= i128::MIN,
        i128::MIN <= open_worth(s, s.accounts[i], leg.trade_pnl as int) <= i128::MAX,
        worth(s.accounts[i]) <= i128::MAX,
        leg.new_q != 0,
    ensures
        ({
                let old_q = leg.old_q as int;
                let new_q = leg.new_q as int;
                let is = worth(s.accounts[i]);
                let was = leg.equity_pre@;
                let fee = leg.fee_impact as int;
                let more = abs_of(new_q) > abs_of(old_q) || (old_q < 0 < new_q) || (new_q < 0 < old_q);
                s.trade_margin_ok(i, price, leg) <==> if more {
                    open_worth(s, s.accounts[i], leg.trade_pnl as int) >= initial_margin(s, new_q, price)
                } else {
                    ||| is > maintenance_margin(s, new_q, price)
                    ||| abs_of(new_q) < abs_of(old_q) && is + fee - maintenance_margin(s, new_q, price) > was - maintenance_margin(
                        s,
                        old_q,
                        price,
                    ) && (is + fee >= 0 || is + fee >= was)
                }
        }),
{
    let q = leg.new_q as int;
    lemma_margin_fits(s, q, price);
    margins_are_shares_of_value(s, q, price);
    margins_are_shares_of_value(s, leg.old_q as int, price);
    trade_equity_leaves_out_the_gain(s, s.accounts[i], leg.trade_pnl as int);
}

/// A trade adds open interest to a side only where the side is open for it, or its
/// reset is done; and no position and no side grows beyond its limit.
pub proof fn trade_respects_the_sides(
    s: EngineState,
    c: CtxState,
    a: int,
    b: int,
    price: u64,
    size: i128,
    exec_price: u64,
    eq_a: I256,
    eq_b: I256,
)
    ensures
        s.apply_trade(c, a, b, price, size, exec_price, eq_a, eq_b) matches Ok(r) ==> {
            let m = s.reopen_ready();
            let old_a = s.effective_pos(a);
            let old_b = s.effective_pos(b);
            let long = pos_of(old_a + size) - pos_of(old_a) + pos_of(old_b - size) - pos_of(old_b);
            let short = pos_of(-old_a - size) - pos_of(-old_a) + pos_of(-old_b + size) - pos_of(-old_b);
            &&& r.0.oi_eff_long_q == s.oi_eff_long_q + long
            &&& r.0.oi_eff_short_q == s.oi_eff_short_q + short
            &&& long > 0 ==> m.side_mode_long == SideMode::Normal
            &&& short > 0 ==> m.side_mode_short == SideMode::Normal
            &&& r.0.oi_eff_long_q <= 100_000_000_000_000 && r.0.oi_eff_short_q <= 100_000_000_000_000
            &&& abs_of(old_a + size) <= 100_000_000_000_000 && abs_of(old_b - size) <= 100_000_000_000_000
            &&& m.side_mode_long == s.side_mode_long || (s.side_mode_long == SideMode::ResetPending && m.side_mode_long
                    == SideMode::Normal)
            &&& m.side_mode_short == s.side_mode_short || (s.side_mode_short == SideMode::ResetPending && m.side_mode_short
                    == SideMode::Normal)
        },
{
    if let Ok(r) = s.apply_trade(c, a, b, price, size, exec_price, eq_a, eq_b) {
        lemma_trade_interest(s, c, a, b, price, size, exec_price, eq_a, eq_b);
    }
}

proof fn lemma_trade_interest(
    s: EngineState,
    c: CtxState,
    a: int,
    b: int,
    price: u64,
    size: i128,
    exec_price: u64,
    eq_a: I256,
    eq_b: I256,
)
    ensures
        s.apply_trade(c, a, b, price, size, exec_price, eq_a, eq_b) matches Ok(r) ==> {
            let m = s.reopen_ready();
            let oi = m.oi_after(
                s.effective_pos(a),
                s.effective_pos(a) + size,
                s.effective_pos(b),
                s.effective_pos(b) - size,
            )->Ok_0;
            &&& m.oi_after(
                s.effective_pos(a),
                s.effective_pos(a) + size,
                s.effective_pos(b),
                s.effective_pos(b) - size,
            ) is Ok
            &&& r.0.oi_eff_long_q == oi.0 && r.0.oi_eff_short_q == oi.1
            &&& oi.0 <= MAX_OI_SIDE_Q && oi.1 <= MAX_OI_SIDE_Q
            &&& !m.side_blocked(oi.0, oi.1)
            &&& EngineState::position_ok(s.effective_pos(a) + size, price as int)
            &&& EngineState::position_ok(s.effective_pos(b) - size, price as int)
        },
{
    if let Ok(r) = s.apply_trade(c, a, b, price, size, exec_price, eq_a, eq_b) {
        reveal(EngineState::apply_trade);
        assert forall|u: EngineState, i: int| (#[trigger] u.settle_losses(i)) is Ok implies u.settle_losses(i)->Ok_0.oi_eff_long_q
            == u.oi_eff_long_q && u.settle_losses(i)->Ok_0.oi_eff_short_q == u.oi_eff_short_q by {
            lemma_losses_spare_interest(u, i);
        }
        assert forall|u: EngineState, i: int, fee: u128| (#[trigger] u.charge_fee(i, fee)) is Ok implies u.charge_fee(
            i,
            fee,
        )->Ok_0.0.oi_eff_long_q == u.oi_eff_long_q && u.charge_fee(i, fee)->Ok_0.0.oi_eff_short_q == u.oi_eff_short_q by {
            reveal(EngineState::charge_fee);
        }
    }
}

proof fn lemma_losses_spare_interest(s: EngineState, i: int)
    ensures
        s.settle_losses(i) matches Ok(t) ==> t.oi_eff_long_q == s.oi_eff_long_q && t.oi_eff_short_q == s.oi_eff_short_q,
{
    reveal(EngineState::settle_losses);
    reveal(EngineState::set_pnl);
    reveal(EngineState::raise_pnl);
    reveal(EngineState::lower_pnl);
}

/// What a flat account can convert safely is the most that leaves its worth at or
/// above nothing: converting costs it the share that is not covered.
pub proof fn safe_conversion_is_the_most(s: EngineState, i: int, cap: int, num: int, den: int)
    requires
        0 <= i < s.accounts.len(),
        0 <= cap,
        0 <= num <= den,
        0 < den,
    ensures
        ({
                let e = worth(s.accounts[i]);
                let r = s.safe_conversion(i, cap, num, den);
                &&& 0 <= r <= cap
                &&& e <= 0 ==> r == 0
                &&& e > 0 && e <= i128::MAX ==> r * (den - num) <= e * den
                &&& 0 < e <= i128::MAX && r < cap ==> (r + 1) * (den - num) > e * den
        }),
{
    let e = worth(s.accounts[i]);
    if cap > 0 && 0 < e <= i128::MAX {
        if num < den {
            lemma_fundamental_div_mod(e * den, den - num);
            let q = e * den / (den - num);
            assert(q >= 0 && q * (den - num) <= e * den < (q + 1) * (den - num)) by (nonlinear_arith)
                requires
                    e * den == (den - num) * q + e * den % (den - num),
                    0 <= e * den % (den - num) < den - num,
                    e > 0,
                    den > num,
                    den > 0,
                ;
            if cap < q {
                assert(cap * (den - num) <= q * (den - num)) by (nonlinear_arith)
                    requires
                        cap < q,
                        num < den,
                    ;
            }
        } else {
            assert(cap * 0 == 0 && 0 <= e * den) by (nonlinear_arith)
                requires
                    e > 0,
                    den > 0,
                ;
        }
    }
}

} // verus!
