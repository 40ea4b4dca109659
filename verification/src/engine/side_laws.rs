//! What the sides of a market and its resolution do, in plain numbers.

use vstd::prelude::*;
use crate::constants::MAX_ACCOUNTS;
use crate::context::CtxState;
use crate::engine::books::{set_pnl_keeps_books, settle_losses_keeps_books, swap_keeps_books};
use crate::engine::guarantees::reconciled_has_no_reserve;
use crate::engine::laws::{lemma_settle_terminal, reconcile_law};
use crate::engine::ledger_laws::losses_come_out_of_capital;
use crate::engine::market::admission_ok;
use crate::engine::payouts::payout_is_capital_and_share;
use crate::engine::worth::{owed, owed_per, worth};
use crate::model::EngineState;
use crate::types::{other_side, side_of, ReserveMode, ResolveMode, RiskError, RiskParams, Side, SideMode};
use crate::wide_math::{abs_of, ceil_div};

verus! {

/// A stored position stands for its basis, scaled by the index of its side now over
/// that when it was stored, rounded toward zero; and for nothing once its epoch is
/// over.
pub proof fn position_scales_with_its_index(s: EngineState, i: int)
    ensures
        ({
                let a = s.accounts[i];
                let b = a.position_basis_q as int;
                let q = s.effective_pos(i);
                let index = if b > 0 {
                    s.adl_mult_long as int
                } else {
                    s.adl_mult_short as int
                };
                let epoch = if b > 0 {
                    s.adl_epoch_long
                } else {
                    s.adl_epoch_short
                };
                let then = a.adl_a_basis as int;
                &&& b == 0 || then == 0 || a.adl_epoch_snap != epoch ==> q == 0
                &&& b > 0 && then > 0 && a.adl_epoch_snap == epoch ==> 0 <= q && q * then <= b * index < (q + 1) * then
                &&& b < 0 && then > 0 && a.adl_epoch_snap == epoch ==> q <= 0 && (-q) * then <= (-b) * index < (-q + 1) * then
        }),
{
    let a = s.accounts[i];
    let b = a.position_basis_q as int;
    let then = a.adl_a_basis as int;
    if b != 0 && then > 0 {
        let index = if b > 0 {
            s.adl_mult_long as int
        } else {
            s.adl_mult_short as int
        };
        let n = abs_of(b) * index;
        let p = n / then;
        assert(0 <= n) by (nonlinear_arith)
            requires
                n == abs_of(b) * index,
                0 <= abs_of(b),
                0 <= index,
            ;
        vstd::arithmetic::div_mod::lemma_fundamental_div_mod(n, then);
        vstd::arithmetic::div_mod::lemma_div_pos_is_pos(n, then);
        assert(p * then <= n < (p + 1) * then) by (nonlinear_arith)
            requires
                n == then * p + n % then,
                0 <= n % then < then,
            ;
    }
}

/// A quotient rounded down.
proof fn lemma_floor(n: int, d: int)
    requires
        0 <= n,
        0 < d,
    ensures
        0 <= n / d,
        (n / d) * d <= n < (n / d + 1) * d,
        n / d > 0 <==> n >= d,
{
    let a = n / d;
    vstd::arithmetic::div_mod::lemma_fundamental_div_mod(n, d);
    vstd::arithmetic::div_mod::lemma_div_pos_is_pos(n, d);
    assert(a * d <= n < (a + 1) * d) by (nonlinear_arith)
        requires
            n == d * a + n % d,
            0 <= n % d < d,
        ;
    assert(a > 0 <==> n >= d) by (nonlinear_arith)
        requires
            a * d <= n < (a + 1) * d,
            0 < d,
        ;
}

/// A quotient rounded up.
proof fn lemma_ceil(x: int, d: int)
    requires
        0 <= x,
        0 < d,
    ensures
        (ceil_div(x, d) - 1) * d < x <= ceil_div(x, d) * d,
        x > 0 ==> ceil_div(x, d) > 0,
{
    let k = ceil_div(x, d);
    vstd::arithmetic::div_mod::lemma_fundamental_div_mod(x, d);
    assert((k - 1) * d < x <= k * d) by (nonlinear_arith)
        requires
            x == d * (x / d) + x % d,
            0 <= x % d < d,
            k == if x % d == 0 {
                x / d
            } else {
                x / d + 1
            },
        ;
    if x > 0 {
        assert(k > 0) by (nonlinear_arith)
            requires
                0 < x <= k * d,
                0 < d,
            ;
    }
}

/// What a deficit does to the `K` of a side with open interest `oi`: it falls by
/// just enough, per unit of its index, that the open interest bears the deficit. A
/// fall that does not fit is left out.
pub proof fn deficit_lowers_k_by_just_enough(s: EngineState, side: Side, rest: int, oi: int)
    requires
        0 <= rest,
        0 < oi,
    ensures
        ({
                let t = s.socialize(side, rest, oi);
                let fall = s.k_side(side) - t.k_side(side);
                let x = rest * (s.a_side(side) * 1_000_000);
                &&& rest == 0 ==> fall == 0
                &&& fall != 0 ==> (fall - 1) * oi < x <= fall * oi
                &&& x > 0 && fall == 0 ==> x > (s.k_side(side) - i128::MIN) * oi || x > i128::MAX * oi
                &&& t.k_side(other_side(side)) == s.k_side(other_side(side))
                &&& t.accounts == s.accounts && t.insurance_fund == s.insurance_fund
                &&& t.oi_eff_long_q == s.oi_eff_long_q && t.oi_eff_short_q == s.oi_eff_short_q
                &&& t.adl_mult_long == s.adl_mult_long && t.adl_mult_short == s.adl_mult_short
        }),
{
    let index = s.a_side(side) as int;
    let x = rest * (index * 1_000_000);
    assert(0 <= x) by (nonlinear_arith)
        requires
            x == rest * (index * 1_000_000),
            0 <= rest,
            0 <= index,
        ;
    if rest == 0 {
        assert(x == 0) by (nonlinear_arith)
            requires
                x == rest * (index * 1_000_000),
                rest == 0,
            ;
    }
    lemma_ceil(x, oi);
    let k = ceil_div(x, oi);
    lemma_too_much(s.k_side(side) - i128::MIN, k, x, oi);
    lemma_too_much(i128::MAX as int, k, x, oi);
}

/// How a side shrinks from open interest `oi` to `left`: its index falls in
/// proportion, rounded down, and below a tenth of a fresh one the side is to be
/// drained. An index that comes to nothing ends both sides.
pub proof fn index_shrinks_in_proportion(s: EngineState, c: CtxState, side: Side, oi: int, left: u128)
    requires
        0 < oi,
        left <= oi,
    ensures
        s.shrink_side(c, side, oi, left) matches Ok(r) ==> {
            let t = r.0;
            let scaled = s.a_side(side) * left;
            &&& scaled >= oi ==> {
                &&& t.a_side(side) * oi <= scaled < (t.a_side(side) + 1) * oi
                &&& t.oi_eff(side) == left && t.oi_eff(other_side(side)) == s.oi_eff(other_side(side))
                &&& t.side_mode(side) == if t.a_side(side) < 100_000_000_000_000 {
                    SideMode::DrainOnly
                } else {
                    s.side_mode(side)
                }
                &&& r.1 == c
            }
            &&& scaled < oi ==> t.oi_eff(side) == 0 && t.oi_eff(other_side(side)) == 0 && r.1.pending_reset_long
                && r.1.pending_reset_short
            &&& t.a_side(other_side(side)) == s.a_side(other_side(side))
            &&& t.k_side(side) == s.k_side(side) && t.k_side(other_side(side)) == s.k_side(other_side(side))
            &&& t.accounts == s.accounts && t.insurance_fund == s.insurance_fund
        },
{
    let index = s.a_side(side) as int;
    let scaled = index * left;
    assert(0 <= scaled <= index * oi) by (nonlinear_arith)
        requires
            scaled == index * left,
            0 <= index,
            0 <= left <= oi,
        ;
    lemma_floor(scaled, oi);
    let a = scaled / oi;
    assert(a <= index) by (nonlinear_arith)
        requires
            a * oi <= scaled <= index * oi,
            0 < oi,
        ;
}

/// How closing `q` on one side, with a deficit `d`, reaches the other. Insurance
/// pays the deficit down to its floor. What it does not pay lowers the `K` of the
/// other side, where that has positions. The open interest of both sides falls by
/// `q`, unless nothing is left of the other side's index.
pub proof fn closing_reaches_the_other_side(s: EngineState, c: CtxState, liq: Side, q: u128, d: u128)
    ensures
        s.enqueue_adl(c, liq, q, d) matches Ok(r) ==> {
            let t = r.0;
            let opp = other_side(liq);
            let oi = s.oi_eff(opp) as int;
            let spare = s.insurance_fund.balance.v - s.params.insurance_floor.v;
            let paid = s.insurance_fund.balance.v - t.insurance_fund.balance.v;
            let x = (d - paid) * (s.a_side(opp) * 1_000_000);
            let fall = s.k_side(opp) - t.k_side(opp);
            let scaled = s.a_side(opp) * (oi - q);
            let reached = oi > 0 && s.stored_pos_count(opp) > 0;
            let gone = reached && q < oi && scaled < oi;
            &&& t.accounts == s.accounts
            &&& paid == if spare <= 0 {
                0
            } else if d <= spare {
                d as int
            } else {
                spare
            }
            &&& q <= s.oi_eff(liq)
            &&& oi > 0 ==> q <= oi
            &&& !gone ==> t.oi_eff(liq) == s.oi_eff(liq) - q
            &&& !gone && oi > 0 ==> t.oi_eff(opp) == oi - q
            &&& gone ==> t.oi_eff(liq) == 0 && t.oi_eff(opp) == 0 && r.1.pending_reset_long && r.1.pending_reset_short
            &&& !reached || d == paid ==> fall == 0
            &&& fall != 0 ==> (fall - 1) * oi < x <= fall * oi
            &&& reached && x > 0 && fall == 0 ==> x > (s.k_side(opp) - i128::MIN) * oi || x > i128::MAX * oi
            &&& t.k_side(liq) == s.k_side(liq) && t.a_side(liq) == s.a_side(liq)
            &&& reached && q < oi && !gone ==> t.a_side(opp) * oi <= scaled < (t.a_side(opp) + 1) * oi
            &&& !reached || oi == q || gone ==> t.a_side(opp) == s.a_side(opp)
        },
{
    if let Ok(r) = s.enqueue_adl(c, liq, q, d) {
        reveal(EngineState::enqueue_adl);
        let opp = other_side(liq);
        let s1 = s.with_oi_eff(liq, (s.oi_eff(liq) - q) as u128);
        let s2 = s1.absorb_loss(d as int);
        let oi = s2.oi_eff(opp) as int;
        let rest = d - s1.insured(d as int);
        assert(s2.oi_eff(opp) == s.oi_eff(opp) && s2.a_side(opp) == s.a_side(opp) && s2.k_side(opp) == s.k_side(opp));
        assert(s2.a_side(liq) == s.a_side(liq) && s2.k_side(liq) == s.k_side(liq));
        assert(s2.stored_pos_count(opp) == s.stored_pos_count(opp));
        if oi > 0 && s2.stored_pos_count(opp) > 0 {
            deficit_lowers_k_by_just_enough(s2, opp, rest, oi);
            let s3 = s2.socialize(opp, rest, oi);
            if q < oi {
                index_shrinks_in_proportion(s3, c, opp, oi, (oi - q) as u128);
            }
        }
    }
}

proof fn lemma_too_much(limit: int, k: int, x: int, oi: int)
    requires
        (k - 1) * oi < x <= k * oi,
        0 < oi,
    ensures
        k > limit ==> x > limit * oi,
{
    if k > limit {
        assert(limit * oi <= (k - 1) * oi) by (nonlinear_arith)
            requires
                limit <= k - 1,
                0 < oi,
            ;
    }
}

/// A side is reset only when it is empty. Its epoch ends, the index starts over,
/// and its positions are settled at the indices as they stand.
pub proof fn reset_starts_an_epoch(s: EngineState, side: Side)
    ensures
        s.begin_reset(side) matches Ok(t) ==> {
            &&& s.oi_eff(side) == 0
            &&& t.epoch_side(side) == s.epoch_side(side) + 1
            &&& t.a_side(side) == 1_000_000_000_000_000
            &&& t.k_epoch_start(side) == s.k_side(side) && t.f_epoch_start(side) == s.f_side(side)
            &&& t.stale_count(side) == s.stored_pos_count(side)
            &&& t.dust_bound(side) == 0
            &&& t.side_mode(side) == SideMode::ResetPending
            &&& t.accounts == s.accounts
        },
        s.oi_eff(side) == 0 && s.epoch_side(side) < u64::MAX ==> s.begin_reset(side) is Ok,
        s.finish_reset(side) is Ok <==> s.side_mode(side) == SideMode::ResetPending && s.oi_eff(side) == 0 && s.stale_count(side)
            == 0 && s.stored_pos_count(side) == 0,
        s.finish_reset(side) matches Ok(t) ==> t.side_mode(side) == SideMode::Normal && t.accounts == s.accounts,
{
}

/// Open interest is written off at the end of an instruction only where a side has
/// no position left and it is within the dust that such sides may have; then both
/// sides are reset.
pub proof fn only_dust_is_written_off(s: EngineState, c: CtxState)
    ensures
        s.schedule_resets(c) matches Ok(r) ==> {
            let dust = (if s.stored_pos_count_long == 0 {
                    s.phantom_dust_bound_long_q as int
                } else {
                    0
            }) + (if s.stored_pos_count_short == 0 {
                    s.phantom_dust_bound_short_q as int
                } else {
                    0
            });
            let changed = r.0.oi_eff_long_q != s.oi_eff_long_q || r.0.oi_eff_short_q != s.oi_eff_short_q;
            &&& changed ==> s.stored_pos_count_long == 0 || s.stored_pos_count_short == 0
            &&& changed ==> s.oi_eff_long_q == s.oi_eff_short_q <= dust
            &&& changed ==> r.0.oi_eff_long_q == 0 && r.0.oi_eff_short_q == 0 && r.1.pending_reset_long && r.1.pending_reset_short
            &&& r.0.accounts == s.accounts
            &&& c.pending_reset_long ==> r.1.pending_reset_long
            &&& c.pending_reset_short ==> r.1.pending_reset_short
        },
{
    reveal(EngineState::schedule_resets);
}

/// A side is scheduled for a reset when closing empties it: the other side where its
/// last open interest goes, and both where nothing is left on either. Where the
/// other side keeps open interest, nothing is scheduled.
pub proof fn emptied_sides_are_scheduled(s: EngineState, c: CtxState, liq: Side, q: u128, d: u128)
    ensures
        s.enqueue_adl(c, liq, q, d) matches Ok(r) ==> {
            let t = r.0;
            let opp = other_side(liq);
            &&& t.oi_eff(Side::Long) == 0 && t.oi_eff(Side::Short) == 0 ==> r.1.pending_reset_long && r.1.pending_reset_short
            &&& s.oi_eff(opp) != 0 && t.oi_eff(opp) == 0 ==> match opp {
                Side::Long => r.1.pending_reset_long,
                Side::Short => r.1.pending_reset_short,
            }
            &&& t.oi_eff(opp) != 0 ==> r.1 == c
            &&& s.oi_eff(opp) == 0 && t.oi_eff(liq) != 0 ==> r.1 == c
            &&& c.pending_reset_long ==> r.1.pending_reset_long
            &&& c.pending_reset_short ==> r.1.pending_reset_short
            &&& r.1.touched == c.touched && r.1.sticky == c.sticky
            &&& r.1.admit_h_min == c.admit_h_min && r.1.admit_h_max == c.admit_h_max
        },
{
    reveal(EngineState::enqueue_adl);
}

/// Which resets the end of an instruction schedules: both where a side without a
/// position leaves open interest or dust behind, and that of a draining side that
/// is empty.
pub proof fn resets_that_are_due(s: EngineState, c: CtxState)
    ensures
        s.schedule_resets(c) matches Ok(r) ==> {
            let no_long = s.stored_pos_count_long == 0;
            let no_short = s.stored_pos_count_short == 0;
            let left = s.oi_eff_long_q != 0 || s.oi_eff_short_q != 0 || no_long && s.phantom_dust_bound_long_q != 0 || no_short
                && s.phantom_dust_bound_short_q != 0;
            let written_off = (no_long || no_short) && left;
            &&& r.1.pending_reset_long <==> c.pending_reset_long || written_off || s.side_mode_long == SideMode::DrainOnly
                && s.oi_eff_long_q == 0
            &&& r.1.pending_reset_short <==> c.pending_reset_short || written_off || s.side_mode_short == SideMode::DrainOnly
                && s.oi_eff_short_q == 0
            &&& written_off ==> r.0.oi_eff_long_q == 0 && r.0.oi_eff_short_q == 0
            &&& !written_off ==> r.0 == s
        },
{
    reveal(EngineState::schedule_resets);
}

/// A scheduled reset begins unless the side already awaits one, a side that awaits
/// its reset with nothing left on it reopens, and no other side changes its mode or
/// its epoch.
pub proof fn scheduled_resets_begin(s: EngineState, c: CtxState)
    ensures
        s.finalize_resets(c) matches Ok(t) ==> {
            let begins_long = c.pending_reset_long && s.side_mode_long != SideMode::ResetPending;
            let begins_short = c.pending_reset_short && s.side_mode_short != SideMode::ResetPending;
            let awaits_long = begins_long || s.side_mode_long == SideMode::ResetPending;
            let awaits_short = begins_short || s.side_mode_short == SideMode::ResetPending;
            &&& begins_long ==> s.oi_eff_long_q == 0 && t.adl_epoch_long == s.adl_epoch_long + 1
            &&& begins_short ==> s.oi_eff_short_q == 0 && t.adl_epoch_short == s.adl_epoch_short + 1
            &&& !begins_long ==> t.adl_epoch_long == s.adl_epoch_long && t.adl_mult_long == s.adl_mult_long
            &&& !begins_short ==> t.adl_epoch_short == s.adl_epoch_short && t.adl_mult_short == s.adl_mult_short
            &&& begins_long ==> t.stale_account_count_long == s.stored_pos_count_long
            &&& begins_short ==> t.stale_account_count_short == s.stored_pos_count_short
            &&& !begins_long ==> t.stale_account_count_long == s.stale_account_count_long
            &&& !begins_short ==> t.stale_account_count_short == s.stale_account_count_short
            &&& t.side_mode_long == if !awaits_long {
                s.side_mode_long
            } else if s.oi_eff_long_q == 0 && t.stale_account_count_long == 0 && s.stored_pos_count_long == 0 {
                SideMode::Normal
            } else {
                SideMode::ResetPending
            }
            &&& t.side_mode_short == if !awaits_short {
                s.side_mode_short
            } else if s.oi_eff_short_q == 0 && t.stale_account_count_short == 0 && s.stored_pos_count_short == 0 {
                SideMode::Normal
            } else {
                SideMode::ResetPending
            }
            &&& t.accounts == s.accounts && t.vault == s.vault && t.insurance_fund == s.insurance_fund
            &&& t.oi_eff_long_q == s.oi_eff_long_q && t.oi_eff_short_q == s.oi_eff_short_q
            &&& t.adl_coeff_long == s.adl_coeff_long && t.adl_coeff_short == s.adl_coeff_short
            &&& t.f_long_num == s.f_long_num && t.f_short_num == s.f_short_num
        },
{
    reveal(EngineState::finalize_resets);
}

/// Accrual succeeds wherever the market is live, time does not go back, the price
/// and the rate are within their limits, no more slots have passed than one accrual
/// may take, and the indices do not overflow.
pub proof fn accrual_succeeds_within_limits(s: EngineState, now: u64, price: u64, rate: i128)
    requires
        s.is_live(),
        s.current_slot <= now && s.last_market_slot <= now,
        0 < price <= 1_000_000_000_000,
        -(s.params.max_abs_funding_e9_per_slot as int) <= rate <= s.params.max_abs_funding_e9_per_slot,
        now - s.last_market_slot <= s.params.max_accrual_dt_slots,
        ({
                let dp = price - s.last_oracle_price;
                let paid = s.fund_px_last * rate * (now - s.last_market_slot);
                &&& i128::MIN <= s.adl_coeff_long + s.adl_mult_long * dp <= i128::MAX
                &&& i128::MIN <= s.adl_coeff_short - s.adl_mult_short * dp <= i128::MAX
                &&& i128::MIN <= s.f_long_num - s.adl_mult_long * paid <= i128::MAX
                &&& i128::MIN <= s.f_short_num + s.adl_mult_short * paid <= i128::MAX
        }),
    ensures
        s.accrue(now, price, rate) is Ok,
{
    reveal(EngineState::accrue);
    assert(s.adl_mult_long * 0 == 0 && s.adl_mult_short * 0 == 0) by (nonlinear_arith);
}

/// A resolution shifts each side by what the settlement price is from the live one,
/// in its favour or against it, unless the side awaits its reset. In an ordinary
/// resolution the settlement price is within the band around the live one. Both
/// sides end.
pub proof fn resolution_shifts_the_sides(
    s: EngineState,
    mode: ResolveMode,
    resolved: u64,
    live: u64,
    now: u64,
    rate: i128,
)
    ensures
        s.resolve_market(mode, resolved, live, now, rate) matches Ok(t) ==> {
            let diff = resolved - live;
            &&& s.is_live() && !t.is_live()
            &&& 0 < resolved && 0 < live
            &&& t.resolved_price == resolved && t.resolved_slot == now && t.resolved_live_price == live
            &&& t.resolved_k_long_terminal_delta == if s.side_mode_long == SideMode::ResetPending {
                0
            } else {
                s.adl_mult_long * diff
            }
            &&& t.resolved_k_short_terminal_delta == if s.side_mode_short == SideMode::ResetPending {
                0
            } else {
                -(s.adl_mult_short * diff)
            }
            &&& mode == ResolveMode::Ordinary ==> -(s.params.resolve_price_deviation_bps * live) <= diff * 10_000
                <= s.params.resolve_price_deviation_bps * live
            &&& mode == ResolveMode::Degenerate ==> live == s.last_oracle_price && rate == 0
            &&& t.oi_eff_long_q == 0 && t.oi_eff_short_q == 0
            &&& t.pnl_matured_pos_tot == s.pnl_pos_tot
            &&& t.resolved_payout_ready == 0
        },
{
    reveal(EngineState::resolve_market);
    if let Ok(t) = s.resolve_market(mode, resolved, live, now, rate) {
        reveal(EngineState::accrue);
        let s1 = s.before_resolution(mode, live, now, rate)->Ok_0;
        let diff = resolved - live;
        assert(s1.a_side(Side::Short) * (-diff) == -(s.adl_mult_short * diff)) by (nonlinear_arith)
            requires
                s1.a_side(Side::Short) == s.adl_mult_short,
            ;
    }
}

/// Settling a position at the resolution gives its account what the indices moved up
/// to the end of its epoch, and the shift of its side; then the position is over.
pub proof fn terminal_settlement_books_the_shift(s: EngineState, i: int)
    requires
        s.books(),
        s.in_use(i),
        s.accounts[i].position_basis_q != 0,
    ensures
        s.settle_terminal(i) matches Ok(t) ==> {
            let a = s.accounts[i];
            let b = t.accounts[i];
            let long = a.position_basis_q > 0;
            let k = if long {
                s.adl_epoch_start_k_long + s.resolved_k_long_terminal_delta
            } else {
                s.adl_epoch_start_k_short + s.resolved_k_short_terminal_delta
            };
            let f = if long {
                s.f_epoch_start_long_num as int
            } else {
                s.f_epoch_start_short_num as int
            };
            let gain = worth(b) - worth(a);
            &&& 0 < owed_per(a)
            &&& gain * owed_per(a) <= owed(a, k, f) < (gain + 1) * owed_per(a)
            &&& b.position_basis_q == 0
            &&& a.adl_epoch_snap + 1 == if long {
                s.adl_epoch_long
            } else {
                s.adl_epoch_short
            }
            &&& b.capital == a.capital && b.fee_credits == a.fee_credits
        },
{
    reveal(EngineState::settle_terminal);
    let a = s.accounts[i];
    if let Ok(t) = s.settle_terminal(i) {
        let side = side_of(a.position_basis_q as int)->0;
        let k = s.k_epoch_start(side) + s.terminal_shift(side);
        let f = s.f_epoch_start(side) as int;
        let den = owed_per(a);
        let num = owed(a, k, f);
        let gain = num / den;
        vstd::arithmetic::div_mod::lemma_fundamental_div_mod(num, den);
        assert(gain * den <= num < (gain + 1) * den) by (nonlinear_arith)
            requires
                num == den * gain + num % den,
                0 <= num % den < den,
            ;
        let pnl = (a.pnl + gain) as i128;
        let mode = ReserveMode::ImmediateReleaseResolvedOnly;
        set_pnl_keeps_books(s, i, pnl, mode, CtxState::fresh(0, 0));
    }
}

/// Reconciling an account settles its position and its losses: what is left of its
/// capital and PnL after the position was settled is its own, and where that is a
/// debt, it is forgiven.
pub proof fn reconciling_settles_the_account(s: EngineState, idx: u16)
    requires
        s.books(),
    ensures
        s.reconcile(idx) matches Ok(t) ==> {
            let i = idx as int;
            let a = s.accounts[i];
            let b = t.accounts[i];
            let m = s.at_slot(s.resolved_slot).with_account(i, a.without_reserve()).settle_terminal(i)->Ok_0.accounts[i];
            let sum = m.capital.v + m.pnl;
            &&& b.capital.v + b.pnl == if sum < 0 {
                0
            } else {
                sum
            }
            &&& b.fee_credits == a.fee_credits
            &&& b.position_basis_q == 0 && b.pnl >= 0 && b.reserved_pnl == 0
            &&& m.capital == a.capital
        },
{
    reveal(EngineState::reconcile);
    if let Ok(t) = s.reconcile(idx) {
        let i = idx as int;
        reconcile_law(s, idx);
        let s1 = s.at_slot(s.resolved_slot).with_account(i, s.accounts[i].without_reserve());
        swap_keeps_books(s.at_slot(s.resolved_slot), s1, i);
        lemma_settle_terminal(s1, i);
        if s1.accounts[i].position_basis_q != 0 {
            terminal_settlement_books_the_shift(s1, i);
        } else {
            reveal(EngineState::settle_terminal);
        }
        let s2 = s1.settle_terminal(i)->Ok_0;
        losses_come_out_of_capital(s2, i);
        settle_losses_keeps_books(s2, i);
        let s3 = s2.settle_losses(i)->Ok_0;
        reveal(EngineState::resolve_flat_negative);
        if s3.accounts[i].pnl < 0 {
            let u = s3.absorb_loss(-(s3.accounts[i].pnl as int));
            lemma_forgiven(u, i);
        }
        reconciled_has_no_reserve(s, idx);
    }
}

proof fn lemma_forgiven(s: EngineState, i: int)
    requires
        0 <= i < s.accounts.len(),
    ensures
        s.set_pnl_plain(i, 0, ReserveMode::ImmediateReleaseResolvedOnly) matches Ok(t) ==> t.accounts[i].pnl == 0
            && t.accounts[i].capital == s.accounts[i].capital && t.accounts[i].fee_credits == s.accounts[i].fee_credits,
{
    reveal(EngineState::set_pnl);
    reveal(EngineState::raise_pnl);
    reveal(EngineState::lower_pnl);
}

/// What a closed account of a resolved market is paid: its capital and the share of
/// its profit, less the fees it owes as far as these reach. The share is what the
/// vault held beyond capital and insurance when the first profit was paid, over all
/// profits then, and at most all of it.
pub proof fn closed_account_is_paid_its_share(s: EngineState, idx: u16)
    requires
        s.accounts.len() == MAX_ACCOUNTS,
        s.used.len() == MAX_ACCOUNTS,
    ensures
        s.close_terminal(idx) matches Ok(r) ==> {
            let a = s.accounts[idx as int];
            let spare = s.vault.v - s.c_tot.v - s.insurance_fund.balance.v;
            let all = s.pnl_pos_tot as int;
            let (num, den) = if s.resolved_payout_ready != 0 {
                (s.resolved_payout_h_num as int, s.resolved_payout_h_den as int)
            } else if spare <= 0 {
                (0, all)
            } else if spare < all {
                (spare, all)
            } else {
                (all, all)
            };
            let owes = if a.fee_credits.v < 0 {
                -(a.fee_credits.v as int)
            } else {
                0
            };
            let profit = spare - (r.0.vault.v - r.0.c_tot.v - r.0.insurance_fund.balance.v);
            &&& a.pnl >= 0 && a.position_basis_q == 0
            &&& a.pnl == 0 ==> profit == 0
            &&& a.pnl > 0 ==> den > 0 && profit * den <= a.pnl * num < (profit + 1) * den
            &&& r.1 == if owes < a.capital.v + profit {
                a.capital.v + profit - owes
            } else {
                0
            }
            &&& a.pnl > 0 ==> r.0.resolved_payout_ready != 0 && r.0.resolved_payout_h_num == num && r.0.resolved_payout_h_den == den
        },
{
    payout_is_capital_and_share(s, idx);
    if let Ok(r) = s.close_terminal(idx) {
        reveal(EngineState::close_terminal);
        let a = s.accounts[idx as int];
        let (num, den) = s.payout_ratio();
        if a.pnl > 0 {
            reveal(EngineState::set_pnl);
            reveal(EngineState::lower_pnl);
            reveal(EngineState::sweep_fee_debt);
            let n = a.pnl * num;
            vstd::arithmetic::div_mod::lemma_fundamental_div_mod(n, den);
            let p = n / den;
            assert(p * den <= n < (p + 1) * den) by (nonlinear_arith)
                requires
                    n == den * p + n % den,
                    0 <= n % den < den,
                ;
        }
    }
}

/// A position that is attached starts at the indices of its side as they are now: a
/// long one at those of the long side, a short one at those of the short side. The
/// positions of each side are counted, and a side takes no more than it may.
pub proof fn position_starts_at_its_index(s: EngineState, i: int, q: i128)
    requires
        0 <= i < s.accounts.len(),
    ensures
        s.attach_position(i, q) matches Ok(t) ==> {
            let a = s.accounts[i];
            let b = t.accounts[i];
            let was_long = if a.position_basis_q > 0 {
                1int
            } else {
                0
            };
            let was_short = if a.position_basis_q < 0 {
                1int
            } else {
                0
            };
            &&& b.position_basis_q == q && -100_000_000_000_000 <= q <= 100_000_000_000_000
            &&& q > 0 ==> b.adl_a_basis == s.adl_mult_long && b.adl_k_snap == s.adl_coeff_long && b.f_snap == s.f_long_num
                && b.adl_epoch_snap == s.adl_epoch_long
            &&& q < 0 ==> b.adl_a_basis == s.adl_mult_short && b.adl_k_snap == s.adl_coeff_short && b.f_snap == s.f_short_num
                && b.adl_epoch_snap == s.adl_epoch_short
            &&& t.stored_pos_count_long == s.stored_pos_count_long - was_long + if q > 0 {
                1int
            } else {
                0
            }
            &&& t.stored_pos_count_short == s.stored_pos_count_short - was_short + if q < 0 {
                1int
            } else {
                0
            }
            &&& q > 0 ==> t.stored_pos_count_long <= s.params.max_active_positions_per_side
            &&& q < 0 ==> t.stored_pos_count_short <= s.params.max_active_positions_per_side
            &&& b.capital == a.capital && b.pnl == a.pnl && b.fee_credits == a.fee_credits && b.reserved_pnl == a.reserved_pnl
            &&& t.oi_eff_long_q == s.oi_eff_long_q && t.oi_eff_short_q == s.oi_eff_short_q
        },
{
    reveal(EngineState::attach_position);
}

/// A position that is replaced before its quantity is whole leaves at most one unit of
/// dust on its side, and other positions leave none.
pub proof fn replaced_position_leaves_dust(s: EngineState, i: int, q: i128)
    requires
        0 <= i < s.accounts.len(),
    ensures
        s.attach_position(i, q) matches Ok(t) ==> {
            let a = s.accounts[i];
            let old = a.position_basis_q as int;
            let broken_long = old > 0 && a.adl_epoch_snap == s.adl_epoch_long && a.adl_a_basis != 0 && (old * s.adl_mult_long)
            % (a.adl_a_basis as int) != 0;
            let broken_short = old < 0 && a.adl_epoch_snap == s.adl_epoch_short && a.adl_a_basis != 0 && ((-old) * s.adl_mult_short)
            % (a.adl_a_basis as int) != 0;
            &&& t.phantom_dust_bound_long_q == s.phantom_dust_bound_long_q + if broken_long {
                1int
            } else {
                0
            }
            &&& t.phantom_dust_bound_short_q == s.phantom_dust_bound_short_q + if broken_short {
                1int
            } else {
                0
            }
        },
{
    reveal(EngineState::attach_position);
}

/// The range of admission horizons that an instruction may ask for: within the
/// market's own, in order, and with none at all only as the shorter one.
pub proof fn horizons_are_in_range(h_min: u64, h_max: u64, p: RiskParams)
    ensures
        admission_ok(h_min, h_max, p) <==> 0 < h_max && p.h_min <= h_max && h_max <= p.h_max && h_min <= h_max && (h_min == 0
                || p.h_min <= h_min),
{
}

/// No profit is paid in a resolved market before every position is settled and every
/// loss is booked, and the ratio at which it is paid does not change after that.
pub proof fn profits_wait_for_all_losses(s: EngineState, i: int)
    requires
        0 <= i < s.accounts.len(),
        s.accounts[i].pnl > 0,
    ensures
        s.pay_profit(i) matches Ok(t) ==> {
            &&& s.resolved_payout_ready != 0 || s.stored_pos_count_long == 0 && s.stored_pos_count_short == 0
                && s.stale_account_count_long == 0 && s.stale_account_count_short == 0 && s.neg_pnl_account_count == 0
            &&& t.resolved_payout_ready != 0
            &&& s.resolved_payout_ready != 0 ==> t.resolved_payout_h_num == s.resolved_payout_h_num && t.resolved_payout_h_den
                == s.resolved_payout_h_den
            &&& t.accounts[i].pnl == 0
        },
        s.resolved_payout_ready == 0 && (s.stored_pos_count_long != 0 || s.stored_pos_count_short != 0
                || s.stale_account_count_long != 0 || s.stale_account_count_short != 0 || s.neg_pnl_account_count != 0)
            ==> s.pay_profit(i) == Err::<EngineState, RiskError>(RiskError::Unauthorized),
{
    reveal(EngineState::set_pnl);
    reveal(EngineState::raise_pnl);
    reveal(EngineState::lower_pnl);
}

} // verus!
