//! What an account is worth, in plain numbers: its capital and PnL less the fees it
//! owes. Prices and funding move worth between the two sides, trades move it
//! between the two that trade, and fees take it away. Nothing else does.

use vstd::prelude::*;
use crate::constants::MAX_TRADE_SIZE_Q;
use crate::context::CtxState;
use crate::engine::books::{
    accrue_keeps_books, charge_keeps_books, settle_side_keeps_books, warmup_keeps_books,
    fees_within, finish_account_keeps_books, position_keeps_books, set_pnl_keeps_books,
    settle_losses_keeps_books, touched_in_use,
};
use crate::engine::laws::{lemma_start, trade_legs_law};
use crate::engine::open_interest::{
    lemma_fees_are_apart, lemma_losses_are_apart, lemma_pnl_is_apart, position_is_within_interest, same_position,
};
use crate::model::EngineState;
use crate::types::{side_of, Account, ReserveMode, Side};
use crate::wide_math::{abs_of, I256};

verus! {

/// What an account is worth.
pub open spec fn worth(a: Account) -> int {
    a.capital.v + a.pnl + if a.fee_credits.v < 0 {
        a.fee_credits.v as int
    } else {
        0
    }
}

/// When accrual succeeds, prices and funding are booked to the sides: for each unit
/// of its index, a side with open interest gains what the price moved in its
/// favour, and where both sides have open interest, longs pay shorts the funding
/// rate of either sign on the last funding price for every slot.
pub proof fn accrual_books_price_and_funding(s: EngineState, now: u64, price: u64, rate: i128)
    ensures
        s.accrue(now, price, rate) matches Ok(t) ==> {
            let dp = price - s.last_oracle_price;
            let dt = now - s.last_market_slot;
            let both = s.oi_eff_long_q != 0 && s.oi_eff_short_q != 0;
            let paid = if both {
                s.fund_px_last * rate * dt
            } else {
                0
            };
            &&& t.adl_coeff_long - s.adl_coeff_long == if s.oi_eff_long_q != 0 {
                s.adl_mult_long * dp
            } else {
                0
            }
            &&& t.adl_coeff_short - s.adl_coeff_short == if s.oi_eff_short_q != 0 {
                -(s.adl_mult_short * dp)
            } else {
                0
            }
            &&& t.f_long_num - s.f_long_num == -(s.adl_mult_long * paid)
            &&& t.f_short_num - s.f_short_num == s.adl_mult_short * paid
            &&& t.last_oracle_price == price
            &&& t.fund_px_last == if dt == 0 && dp == 0 {
                s.fund_px_last
            } else {
                price
            }
            &&& t.last_market_slot == now
            &&& t.current_slot == now
            &&& 0 < price
            &&& -(s.params.max_abs_funding_e9_per_slot as int) <= rate <= s.params.max_abs_funding_e9_per_slot
            &&& dt <= s.params.max_accrual_dt_slots || (dt == 0 && dp == 0)
        },
{
    reveal(EngineState::accrue);
    if let Ok(t) = s.accrue(now, price, rate) {
        let dt = now - s.last_market_slot;
        let x = s.fund_px_last * rate;
        if dt == 0 {
            assert(x * dt == 0) by (nonlinear_arith)
                requires
                    dt == 0,
                ;
            assert(s.adl_mult_long * 0 == 0 && s.adl_mult_short * 0 == 0) by (nonlinear_arith);
        }
        if price == s.last_oracle_price {
            assert(s.adl_mult_long * (price - s.last_oracle_price) == 0) by (nonlinear_arith)
                requires
                    price - s.last_oracle_price == 0,
                ;
            assert(s.adl_mult_short * (price - s.last_oracle_price) == 0) by (nonlinear_arith)
                requires
                    price - s.last_oracle_price == 0,
                ;
        }
        assert(s.adl_mult_long * 0 == 0 && s.adl_mult_short * 0 == 0) by (nonlinear_arith);
    }
}

/// Opposite funding rates move the sides by opposite amounts, and a negative rate
/// never takes from the longs.
pub proof fn funding_is_odd_in_the_rate(s: EngineState, now: u64, price: u64, rate: i128)
    requires
        rate != i128::MIN,
        s.accrue(now, price, rate) is Ok,
        s.accrue(now, price, (-rate) as i128) is Ok,
    ensures
        ({
                let t = s.accrue(now, price, rate)->Ok_0;
                let u = s.accrue(now, price, (-rate) as i128)->Ok_0;
                &&& t.f_long_num - s.f_long_num == -(u.f_long_num - s.f_long_num)
                &&& t.f_short_num - s.f_short_num == -(u.f_short_num - s.f_short_num)
                &&& rate < 0 ==> t.f_long_num >= s.f_long_num && t.f_short_num <= s.f_short_num
        }),
{
    accrual_books_price_and_funding(s, now, price, rate);
    accrual_books_price_and_funding(s, now, price, (-rate) as i128);
    let t = s.accrue(now, price, rate)->Ok_0;
    reveal(EngineState::accrue);
    let dt = now - s.last_market_slot;
    let p = s.fund_px_last as int;
    let r = rate as int;
    let x = p * r * dt;
    assert(p * (-r) * dt == -x) by (nonlinear_arith)
        requires
            x == p * r * dt,
        ;
    let a = s.adl_mult_long as int;
    let b = s.adl_mult_short as int;
    assert(a * (-x) == -(a * x)) by (nonlinear_arith);
    assert(b * (-x) == -(b * x)) by (nonlinear_arith);
    if r < 0 {
        assert(x <= 0) by (nonlinear_arith)
            requires
                x == p * r * dt,
                r < 0,
                0 <= p,
                0 <= dt,
            ;
        assert(a * x <= 0) by (nonlinear_arith)
            requires
                x <= 0,
                0 <= a,
            ;
        assert(b * x <= 0) by (nonlinear_arith)
            requires
                x <= 0,
                0 <= b,
            ;
    }
}

/// Finishing an account leaves its worth.
proof fn lemma_finished_one(s: EngineState, i: int, whole: bool)
    requires
        s.books(),
        s.in_use(i),
    ensures
        s.finish_account(i, whole) matches Ok(t) ==> worth(t.accounts[i]) == worth(s.accounts[i])
            && t.accounts[i].position_basis_q == s.accounts[i].position_basis_q && t.accounts[i].adl_a_basis
            == s.accounts[i].adl_a_basis && t.accounts[i].adl_epoch_snap == s.accounts[i].adl_epoch_snap,
{
    reveal(EngineState::finish_account);
    reveal(EngineState::consume_released);
    reveal(EngineState::sweep_fee_debt);
    assert(fees_within(s.accounts[i], s.fee_limit()));
}

proof fn lemma_finished(s: EngineState, order: Seq<u16>, whole: bool, n: nat, j: int)
    requires
        s.books(),
        n <= order.len(),
        0 <= j < s.accounts.len(),
        forall|k: int| 0 <= k < order.len() ==> s.in_use(#[trigger] order[k] as int),
    ensures
        s.finish_accounts(order, whole, n) matches Ok(t) ==> worth(t.accounts[j]) == worth(s.accounts[j])
            && t.accounts[j].position_basis_q == s.accounts[j].position_basis_q && t.accounts[j].adl_a_basis
            == s.accounts[j].adl_a_basis && t.accounts[j].adl_epoch_snap == s.accounts[j].adl_epoch_snap && t.books()
            && t.used == s.used,
    decreases n,
{
    if n > 0 {
        lemma_finished(s, order, whole, (n - 1) as nat, j);
        if let Ok(u) = s.finish_accounts(order, whole, (n - 1) as nat) {
            let i = order[n - 1] as int;
            assert(s.in_use(order[n - 1] as int));
            finish_account_keeps_books(u, i, whole);
            lemma_finished_one(u, i, whole);
        }
    }
}

/// The end of an instruction leaves the worth and the stored position of every
/// account.
pub proof fn ending_leaves_worth(s: EngineState, c: CtxState, j: int)
    requires
        s.books(),
        touched_in_use(s, c),
        0 <= j < s.accounts.len(),
    ensures
        s.finish_touched(c) matches Ok(s1) ==> {
            &&& s1.books()
            &&& worth(s1.accounts[j]) == worth(s.accounts[j])
            &&& s1.accounts[j].position_basis_q == s.accounts[j].position_basis_q
            &&& s1.accounts[j].adl_a_basis == s.accounts[j].adl_a_basis
            &&& s1.accounts[j].adl_epoch_snap == s.accounts[j].adl_epoch_snap
            &&& s1.end_instruction(c) matches Ok(t) ==> t.accounts == s1.accounts
        },
{
    reveal(EngineState::finish_touched);
    lemma_finished(s, c.touched, s.is_whole(), c.touched.len(), j);
    if let Ok(s1) = s.finish_touched(c) {
        reveal(EngineState::schedule_resets);
        reveal(EngineState::finalize_resets);
    }
}

/// What one fee charge does: it is paid from capital as far as that goes, and the
/// rest is owed. What is paid goes to the insurance fund. Only where the debt is at
/// its limit is anything dropped.
pub proof fn fee_is_paid_or_owed(s: EngineState, i: int, fee: u128)
    requires
        0 <= i < s.accounts.len(),
        i128::MIN < s.accounts[i].fee_credits.v <= 0,
    ensures
        s.charge_fee(i, fee) matches Ok(r) ==> {
            let a = s.accounts[i];
            let b = r.0.accounts[i];
            let paid = a.capital.v - b.capital.v;
            let owed = a.fee_credits.v - b.fee_credits.v;
            &&& paid == if fee <= a.capital.v {
                fee
            } else {
                a.capital.v
            }
            &&& r.0.insurance_fund.balance.v == s.insurance_fund.balance.v + paid
            &&& r.0.c_tot.v == s.c_tot.v - paid
            &&& 0 <= owed <= fee - paid
            &&& owed < fee - paid ==> b.fee_credits.v == -i128::MAX
            &&& worth(b) == worth(a) - paid - owed
            &&& r.1.impact == paid + owed
            &&& b == (Account { capital: b.capital, fee_credits: b.fee_credits, ..a })
            &&& r.0.vault == s.vault
        },
{
    reveal(EngineState::charge_fee);
}

/// Booking a gain or a loss of a trade changes the worth of its account by it.
proof fn lemma_booked(s: EngineState, i: int, gain: int, c: CtxState)
    requires
        s.books(),
        s.in_use(i),
    ensures
        s.book_trade_pnl(i, gain, c) matches Ok(r) ==> s.keeps(r.0, set![i]) && worth(r.0.accounts[i]) == worth(s.accounts[i])
            + gain && s.same_interest(r.0) && r.0.accounts[i].fee_credits == s.accounts[i].fee_credits,
{
    if let Ok(r) = s.book_trade_pnl(i, gain, c) {
        let pnl = (s.accounts[i].pnl + gain) as i128;
        let mode = ReserveMode::UseAdmissionPair(c.admit_h_min, c.admit_h_max);
        set_pnl_keeps_books(s, i, pnl, mode, c);
        lemma_pnl_is_apart(s, i, pnl, mode, c);
    }
}

/// Replacing a position leaves the worth of its account.
pub proof fn lemma_replaced(s: EngineState, i: int, q: i128)
    requires
        s.books(),
        s.in_use(i),
    ensures
        s.attach_position(i, q) matches Ok(t) ==> s.keeps(t, set![i]) && worth(t.accounts[i]) == worth(s.accounts[i])
            && t.accounts[i].position_basis_q == q && t.a_side(Side::Long) == s.a_side(Side::Long) && t.a_side(Side::Short)
            == s.a_side(Side::Short) && t.epoch_side(Side::Long) == s.epoch_side(Side::Long) && t.epoch_side(Side::Short)
            == s.epoch_side(Side::Short) && (q != 0 ==> t.accounts[i].adl_a_basis == s.a_side(side_of(q as int)->0)
                && t.accounts[i].adl_epoch_snap == s.epoch_side(side_of(q as int)->0)) && t.accounts[i].fee_credits
            == s.accounts[i].fee_credits,
{
    position_keeps_books(s, i, q);
    reveal(EngineState::attach_position);
}

/// Settling losses leaves the worth and the position of its account.
pub proof fn lemma_losses_leave_worth(s: EngineState, i: int)
    requires
        s.books(),
        s.in_use(i),
    ensures
        s.settle_losses(i) matches Ok(t) ==> s.keeps(t, set![i]) && worth(t.accounts[i]) == worth(s.accounts[i])
            && s.same_interest(t) && same_position(s.accounts[i], t.accounts[i]) && t.accounts[i].fee_credits
            == s.accounts[i].fee_credits,
{
    settle_losses_keeps_books(s, i);
    lemma_losses_are_apart(s, i);
    if let Ok(t) = s.settle_losses(i) {
        assert(same_position(s.accounts[i], t.accounts[i]));
    }
}

/// A fee takes its impact from the worth of its account.
pub proof fn lemma_charged(s: EngineState, i: int, fee: u128)
    requires
        s.books(),
        s.in_use(i),
    ensures
        s.charge_fee(i, fee) matches Ok(r) ==> s.keeps(r.0, set![i]) && worth(r.0.accounts[i]) == worth(s.accounts[i])
            - r.1.impact && r.1.impact <= fee && (s.accounts[i].fee_credits.v >= -(i128::MAX / 2) ==> r.1.impact == fee)
            && s.same_interest(r.0) && same_position(s.accounts[i], r.0.accounts[i]),
{
    charge_keeps_books(s, i, fee);
    lemma_fees_are_apart(s, i, fee);
    assert(fees_within(s.accounts[i], s.fee_limit()));
    fee_is_paid_or_owed(s, i, fee);
    if let Ok(r) = s.charge_fee(i, fee) {
        assert(same_position(s.accounts[i], r.0.accounts[i]));
        reveal(EngineState::charge_fee);
    }
}

/// The fee of each side of a trade: the fee rate, in basis points, of what the
/// quantity costs at the execution price, rounded up.
pub open spec fn trading_fee_on(s: EngineState, size: i128, exec_price: u64) -> int {
    ((size * exec_price / 1_000_000) * s.params.trading_fee_bps + 9_999) / 10_000
}

/// A position that was stored at the current index stands for itself.
pub proof fn lemma_stands_for_itself(s: EngineState, i: int)
    requires
        0 <= i < s.accounts.len(),
        s.adl_mult_long > 0,
        s.adl_mult_short > 0,
        s.accounts[i].position_basis_q != 0 ==> s.accounts[i].adl_a_basis == s.a_side(
            side_of(s.accounts[i].position_basis_q as int)->0,
        ) && s.accounts[i].adl_epoch_snap == s.epoch_side(side_of(s.accounts[i].position_basis_q as int)->0),
    ensures
        s.effective_pos(i) == s.accounts[i].position_basis_q,
{
    let q = abs_of(s.accounts[i].position_basis_q as int);
    if q != 0 {
        let a = s.a_side(side_of(s.accounts[i].position_basis_q as int)->0) as int;
        vstd::arithmetic::div_mod::lemma_div_multiples_vanish(q, a);
        assert(q * a == a * q) by (nonlinear_arith);
    }
}

/// What the legs of a trade do. The buyer of `size` gains `size` times what the
/// execution price is below the oracle price, and the seller loses that; each pays
/// a fee. So a buyer above the oracle price never gains. The buyer's position
/// grows by `size`, and the seller's falls by it.
pub proof fn legs_of_a_trade(
    s: EngineState,
    c: CtxState,
    a: int,
    b: int,
    price: u64,
    size: i128,
    exec_price: u64,
    eq_a: I256,
    eq_b: I256,
)
    requires
        s.books(),
        s.in_use(a),
        s.in_use(b),
        a != b,
        0 < size <= MAX_TRADE_SIZE_Q,
        s.params.trading_fee_bps <= 10_000,
    ensures
        s.apply_trade(c, a, b, price, size, exec_price, eq_a, eq_b) matches Ok(r) ==> {
            let gain = (size * (price - exec_price)) / 1_000_000;
            &&& worth(r.0.accounts[a]) == worth(s.accounts[a]) + gain - r.2.fee_impact
            &&& worth(r.0.accounts[b]) == worth(s.accounts[b]) - gain - r.3.fee_impact
            &&& r.0.accounts[a].position_basis_q == s.effective_pos(a) + size
            &&& r.0.accounts[b].position_basis_q == s.effective_pos(b) - size
            &&& r.2.trade_pnl == gain
            &&& r.3.trade_pnl == -gain
            &&& r.2.old_q == s.effective_pos(a) && r.2.new_q == s.effective_pos(a) + size
            &&& r.3.old_q == s.effective_pos(b) && r.3.new_q == s.effective_pos(b) - size
            &&& r.2.fee_impact <= trading_fee_on(s, size, exec_price)
            &&& r.3.fee_impact <= trading_fee_on(s, size, exec_price)
            &&& s.accounts[a].fee_credits.v >= -(i128::MAX / 2) ==> r.2.fee_impact == trading_fee_on(s, size, exec_price)
            &&& s.accounts[b].fee_credits.v >= -(i128::MAX / 2) ==> r.3.fee_impact == trading_fee_on(s, size, exec_price)
            &&& s.keeps(r.0, set![a, b])
            &&& r.1.touched == c.touched
            &&& r.0.adl_mult_long == s.adl_mult_long && r.0.adl_mult_short == s.adl_mult_short
            &&& r.0.adl_mult_long > 0 && r.0.adl_mult_short > 0 ==> r.0.effective_pos(a) == s.effective_pos(a) + size
                && r.0.effective_pos(b) == s.effective_pos(b) - size
        },
{
    reveal(EngineState::apply_trade);
    if let Ok(r) = s.apply_trade(c, a, b, price, size, exec_price, eq_a, eq_b) {
        let gain = (size * (price - exec_price)) / 1_000_000;
        let old_a = s.effective_pos(a);
        let old_b = s.effective_pos(b);
        let new_a = (old_a + size) as i128;
        let new_b = (old_b - size) as i128;
        let s1 = s.reopen_ready();
        assert(s1.books());
        lemma_booked(s1, a, gain, c);
        let r2 = s1.book_trade_pnl(a, gain, c)->Ok_0;
        lemma_booked(r2.0, b, -gain, r2.1);
        let s3 = r2.0.book_trade_pnl(b, -gain, r2.1)->Ok_0.0;
        lemma_replaced(s3, a, new_a);
        let s4 = s3.attach_position(a, new_a)->Ok_0;
        lemma_replaced(s4, b, new_b);
        let s5 = s4.attach_position(b, new_b)->Ok_0;
        let oi = s1.oi_after(old_a, old_a + size, old_b, old_b - size)->Ok_0;
        let s6 = EngineState { oi_eff_long_q: oi.0, oi_eff_short_q: oi.1, ..s5 };
        assert(s6.books());
        assert(s6.accounts[b] == s5.accounts[b] && s6.accounts[a] == s4.accounts[a]);
        lemma_losses_leave_worth(s6, a);
        let s7 = s6.settle_losses(a)->Ok_0;
        lemma_losses_leave_worth(s7, b);
        let s8 = s7.settle_losses(b)->Ok_0;
        let fee = s8.trading_fee(size as int, exec_price as int) as u128;
        lemma_charged(s8, a, fee);
        let s9 = s8.charge_fee(a, fee)->Ok_0.0;
        lemma_charged(s9, b, fee);
        trade_legs_law(s, c, a, b, price, size, exec_price, eq_a, eq_b);
        lemma_fee_formula(s8, size, exec_price);
        let t = r.0;
        if t.adl_mult_long > 0 && t.adl_mult_short > 0 {
            lemma_stands_for_itself(t, a);
            lemma_stands_for_itself(t, b);
        }
    }
}

proof fn lemma_fee_formula(s: EngineState, size: i128, exec_price: u64)
    requires
        0 < size,
        s.params.trading_fee_bps <= 10_000,
    ensures
        s.trading_fee(size as int, exec_price as int) == trading_fee_on(s, size, exec_price),
        0 <= s.trading_fee(size as int, exec_price as int),
        size <= MAX_TRADE_SIZE_Q ==> s.trading_fee(size as int, exec_price as int) <= u128::MAX,
{
    let n = size * exec_price / 1_000_000;
    let x = n * s.params.trading_fee_bps;
    assert(0 <= size * exec_price) by (nonlinear_arith)
        requires
            0 < size,
            0 <= exec_price,
        ;
    assert(0 <= x <= n * 10_000) by (nonlinear_arith)
        requires
            0 <= n,
            0 <= s.params.trading_fee_bps <= 10_000,
            x == n * s.params.trading_fee_bps,
        ;
    if size <= MAX_TRADE_SIZE_Q {
        assert(size * exec_price <= MAX_TRADE_SIZE_Q * u64::MAX) by (nonlinear_arith)
            requires
                0 < size <= MAX_TRADE_SIZE_Q,
                0 <= exec_price <= u64::MAX,
            ;
    }
}

/// What the indices of a side owe account `i` since its snapshots were taken: the
/// numerator of what it gains, over [`owed_per`].
pub open spec fn owed(a: Account, k: int, f: int) -> int {
    (if a.position_basis_q < 0 {
            -(a.position_basis_q as int)
        } else {
            a.position_basis_q as int
    }) * ((k - a.adl_k_snap) * 1_000_000_000 + (f - a.f_snap))
}

pub open spec fn owed_per(a: Account) -> int {
    a.adl_a_basis * 1_000_000_000_000_000
}

/// Settling a position gives its account what the indices of its side moved since
/// they were last settled, rounded down, and nothing else. A position of the
/// current epoch is settled up to now, and one of the epoch before up to that
/// epoch's end; then it is over.
pub proof fn settlement_books_the_indices(s: EngineState, i: int, c: CtxState)
    requires
        s.books(),
        s.in_use(i),
    ensures
        s.settle_side_effects(i, c) matches Ok(r) ==> {
            let a = s.accounts[i];
            let b = r.0.accounts[i];
            let long = a.position_basis_q > 0;
            let epoch = if long {
                s.adl_epoch_long
            } else {
                s.adl_epoch_short
            };
            let current = a.adl_epoch_snap == epoch;
            let k = match (long, current) {
                (true, true) => s.adl_coeff_long,
                (false, true) => s.adl_coeff_short,
                (true, false) => s.adl_epoch_start_k_long,
                (false, false) => s.adl_epoch_start_k_short,
            };
            let f = match (long, current) {
                (true, true) => s.f_long_num,
                (false, true) => s.f_short_num,
                (true, false) => s.f_epoch_start_long_num,
                (false, false) => s.f_epoch_start_short_num,
            };
            let gain = worth(b) - worth(a);
            &&& a.position_basis_q == 0 ==> b == a
            &&& a.position_basis_q != 0 ==> {
                &&& 0 < owed_per(a)
                &&& gain * owed_per(a) <= owed(a, k as int, f as int) < (gain + 1) * owed_per(a)
                &&& current || a.adl_epoch_snap + 1 == epoch
                &&& b.position_basis_q == 0 || (current && b.position_basis_q == a.position_basis_q && b.adl_k_snap == k && b.f_snap
                        == f && b.adl_a_basis == a.adl_a_basis && b.adl_epoch_snap == a.adl_epoch_snap)
                &&& b.position_basis_q == 0 <==> s.effective_pos(i) == 0
            }
            &&& b.capital == a.capital && b.fee_credits == a.fee_credits
        },
{
    reveal(EngineState::settle_side_effects);
    let a = s.accounts[i];
    if a.position_basis_q != 0 {
        if let Ok(r) = s.settle_side_effects(i, c) {
            let side = side_of(a.position_basis_q as int)->0;
            let current = a.adl_epoch_snap == s.epoch_side(side);
            let k = if current {
                s.k_side(side)
            } else {
                s.k_epoch_start(side)
            };
            let f = if current {
                s.f_side(side)
            } else {
                s.f_epoch_start(side)
            };
            let den = owed_per(a);
            let num = owed(a, k as int, f as int);
            let gain = num / den;
            vstd::arithmetic::div_mod::lemma_fundamental_div_mod(num, den);
            assert(gain * den <= num < (gain + 1) * den) by (nonlinear_arith)
                requires
                    num == den * gain + num % den,
                    0 <= num % den < den,
                ;
            let pnl = (a.pnl + gain) as i128;
            let mode = ReserveMode::UseAdmissionPair(c.admit_h_min, c.admit_h_max);
            set_pnl_keeps_books(s, i, pnl, mode, c);
            lemma_pnl_is_apart(s, i, pnl, mode, c);
            let t = s.set_pnl(i, pnl, mode, c)->Ok_0.0;
            assert(same_position(a, t.accounts[i]));
        }
    }
}

/// Touching an account whose position goes on changes its worth by what the indices
/// of its side moved, and by nothing else.
proof fn lemma_touched_worth(s: EngineState, i: int, c: CtxState)
    requires
        s.books(),
        s.effective_pos(i) != 0,
    ensures
        s.touch(i, c) matches Ok(r) ==> {
            let a = s.accounts[i];
            let b = r.0.accounts[i];
            let long = a.position_basis_q > 0;
            let k = if long {
                s.adl_coeff_long
            } else {
                s.adl_coeff_short
            };
            let f = if long {
                s.f_long_num
            } else {
                s.f_short_num
            };
            let gain = worth(b) - worth(a);
            &&& 0 < owed_per(a)
            &&& gain * owed_per(a) <= owed(a, k as int, f as int) < (gain + 1) * owed_per(a)
            &&& b.position_basis_q == a.position_basis_q
            &&& s.used[i] && 0 <= i < s.accounts.len()
        },
{
    reveal(EngineState::touch);
    if let Ok(r) = s.touch(i, c) {
        let c1 = c.touch(i as u16)->0;
        warmup_keeps_books(s, i);
        lemma_warmup_leaves_worth(s, i);
        let s1 = s.admit_outstanding(i)->Ok_0;
        warmup_keeps_books(s1, i);
        lemma_warmup_leaves_worth(s1, i);
        let s2 = s1.advance_warmup(i)->Ok_0;
        settlement_books_the_indices(s2, i, c1);
        settle_side_keeps_books(s2, i, c1);
        assert(s2.effective_pos(i) == s.effective_pos(i));
        let s3 = s2.settle_side_effects(i, c1)->Ok_0.0;
        lemma_settled_position(s2, i, c1);
        lemma_losses_leave_worth(s3, i);
        let s4 = s3.settle_losses(i)->Ok_0;
        reveal(EngineState::resolve_flat_negative);
        assert(s4.effective_pos(i) == s3.effective_pos(i));
        assert(s4.effective_pos(i) != 0);
    }
}

/// Settling a position that goes on leaves what it stands for.
proof fn lemma_settled_position(s: EngineState, i: int, c: CtxState)
    requires
        s.books(),
        s.in_use(i),
        s.effective_pos(i) != 0,
    ensures
        s.settle_side_effects(i, c) matches Ok(r) ==> r.0.effective_pos(i) == s.effective_pos(i),
{
    settlement_books_the_indices(s, i, c);
    if let Ok(r) = s.settle_side_effects(i, c) {
        reveal(EngineState::settle_side_effects);
        let mode = ReserveMode::UseAdmissionPair(c.admit_h_min, c.admit_h_max);
        assert forall|pnl: i128|
        (#[trigger] s.set_pnl(i, pnl, mode, c)) is Ok implies s.same_interest(s.set_pnl(i, pnl, mode, c)->Ok_0.0) by {
            lemma_pnl_is_apart(s, i, pnl, mode, c);
        }
    }
}

/// Warmup leaves the worth of an account, its position and its snapshots.
proof fn lemma_warmup_leaves_worth(s: EngineState, i: int)
    requires
        0 <= i < s.accounts.len(),
    ensures
        s.admit_outstanding(i) matches Ok(t) ==> same_but_reserve(s, t, i),
        s.advance_warmup(i) matches Ok(t) ==> same_but_reserve(s, t, i),
{
    reveal(EngineState::advance_warmup);
}

/// Account `i` differs in its reserve at most, and the sides are the same.
pub open spec fn same_but_reserve(s: EngineState, t: EngineState, i: int) -> bool {
    let a = s.accounts[i];
    let b = t.accounts[i];
    &&& worth(b) == worth(a)
    &&& b.position_basis_q == a.position_basis_q
    &&& b.adl_a_basis == a.adl_a_basis
    &&& b.adl_k_snap == a.adl_k_snap
    &&& b.f_snap == a.f_snap
    &&& b.adl_epoch_snap == a.adl_epoch_snap
    &&& t.accounts.len() == s.accounts.len()
    &&& t.adl_mult_long == s.adl_mult_long && t.adl_mult_short == s.adl_mult_short
    &&& t.adl_coeff_long == s.adl_coeff_long && t.adl_coeff_short == s.adl_coeff_short
    &&& t.f_long_num == s.f_long_num && t.f_short_num == s.f_short_num
    &&& t.adl_epoch_long == s.adl_epoch_long && t.adl_epoch_short == s.adl_epoch_short
}

/// Account `i` holds the position `q`, settled up to the present indices.
pub open spec fn is_settled_with(s: EngineState, i: int, q: int) -> bool {
    let a = s.accounts[i];
    &&& a.position_basis_q == q
    &&& q > 0 ==> a.adl_a_basis == s.adl_mult_long && a.adl_epoch_snap == s.adl_epoch_long && a.adl_k_snap
        == s.adl_coeff_long && a.f_snap == s.f_long_num
    &&& q < 0 ==> a.adl_a_basis == s.adl_mult_short && a.adl_epoch_snap == s.adl_epoch_short && a.adl_k_snap
        == s.adl_coeff_short && a.f_snap == s.f_short_num
}

/// Who holds a position gains and loses with the price and the funding: settling
/// an account that holds `q` gives it `q` times the rise of the price, less `q`
/// times the funding rate on the funding price for every slot, rounded down. So a
/// long gains where the price rises and a short where it falls, and a negative
/// rate is paid by shorts.
pub proof fn holder_gains_with_the_price(
    s: EngineState,
    idx: u16,
    q: int,
    price: u64,
    now: u64,
    rate: i128,
    h_min: u64,
    h_max: u64,
)
    requires
        s.in_order(),
        is_settled_with(s, idx as int, q),
        q != 0,
    ensures
        s.settle_account(idx, price, now, rate, h_min, h_max) matches Ok(t) ==> {
            let dp = price - s.last_oracle_price;
            let dt = now - s.last_market_slot;
            worth(t.accounts[idx as int]) - worth(s.accounts[idx as int]) == (q * (dp * 1_000_000_000 - s.fund_px_last * rate
                        * dt)) / 1_000_000_000_000_000
        },
{
    reveal(EngineState::settle_account);
    if let Ok(t) = s.settle_account(idx, price, now, rate, h_min, h_max) {
        let i = idx as int;
        lemma_start(s, i, price, now, rate, h_min, h_max);
        accrue_keeps_books(s, now, price, rate);
        accrual_books_price_and_funding(s, now, price, rate);
        let s1 = s.accrue(now, price, rate)->Ok_0;
        reveal(EngineState::accrue);
        lemma_stands_for_itself(s, i);
        position_is_within_interest(s, i, Side::Long);
        position_is_within_interest(s, i, Side::Short);
        assert(s.oi_eff_long_q > 0 && s.oi_eff_short_q > 0);
        assert(s1.effective_pos(i) == q);
        let c = CtxState::fresh(h_min, h_max);
        lemma_touched_worth(s1, i, c);
        let r = s1.touch(i, c)->Ok_0;
        ending_leaves_worth(r.0, r.1, i);
        let a = s.accounts[i];
        let dp = price - s.last_oracle_price;
        let paid = s.fund_px_last * rate * (now - s.last_market_slot);
        let x = q * (dp * 1_000_000_000 - paid);
        let mult = if q > 0 {
            s.adl_mult_long as int
        } else {
            s.adl_mult_short as int
        };
        let gain = worth(t.accounts[i]) - worth(a);
        let k = if q > 0 {
            s1.adl_coeff_long as int
        } else {
            s1.adl_coeff_short as int
        };
        let f = if q > 0 {
            s1.f_long_num as int
        } else {
            s1.f_short_num as int
        };
        let d = 1_000_000_000_000_000int;
        assert(owed(a, k, f) == mult * x) by {
            if q > 0 {
                assert(q * ((mult * dp) * 1_000_000_000 + (-(mult * paid))) == mult * (q * (dp * 1_000_000_000 - paid))) by (
                    nonlinear_arith);
            } else {
                assert((-q) * ((-(mult * dp)) * 1_000_000_000 + mult * paid) == mult * (q * (dp * 1_000_000_000 - paid))) by (
                    nonlinear_arith);
            }
        }
        assert(gain * d <= x < (gain + 1) * d) by (nonlinear_arith)
            requires
                gain * (mult * d) <= mult * x < (gain + 1) * (mult * d),
                mult > 0,
                d == 1_000_000_000_000_000int,
            ;
        vstd::arithmetic::div_mod::lemma_fundamental_div_mod_converse(x, d, gain, x - gain * d);
    }
}

} // verus!
