//! Open interest against positions. A position is stored at the index `A` of its
//! side as it was then, and stands for `basis * A / A_then` now; what the positions
//! of a side stand for together is its open interest, but for a remainder that
//! no position accounts for. The dust bound of the side covers that remainder.

use vstd::prelude::*;
use crate::constants::{MAX_ACCOUNTS, MAX_OI_SIDE_Q, POS_SCALE};
use crate::context::CtxState;
use crate::engine::market::adl_dust;
use crate::engine::books::{lemma_counts, touched_in_use};
use crate::engine::positions::index_pnl_or_overflow;
use crate::model::EngineState;
use crate::types::{other_side, side_of, Account, ReserveMode, Side, SideMode};
use crate::wide_math::{abs_of, ceil_div, min_of, muldiv, pos_of};

verus! {

/// The sum of fractions, each given as numerator and denominator.
pub open spec fn fraction_sum(ws: Seq<(int, int)>) -> (int, int)
    decreases ws.len(),
{
    if ws.len() == 0 {
        (0, 1)
    } else {
        let (p, q) = fraction_sum(ws.drop_last());
        let (n, d) = ws.last();
        (p * d + n * q, q * d)
    }
}

/// Fractions that are not negative.
pub open spec fn proper(ws: Seq<(int, int)>) -> bool {
    forall|j: int| 0 <= j < ws.len() ==> 0 <= (#[trigger] ws[j]).0 && 0 < ws[j].1
}

/// `a` times the sum of the fractions is at most `oi`, and less than `oi` by at
/// most `dust`.
pub open spec fn backs(ws: Seq<(int, int)>, a: int, oi: int, dust: int) -> bool {
    let (n, m) = fraction_sum(ws);
    a * n <= oi * m <= a * n + dust * m
}

/// Fractions that are not negative add up to one that is not.
pub proof fn lemma_sum_is_proper(ws: Seq<(int, int)>)
    requires
        proper(ws),
    ensures
        0 <= fraction_sum(ws).0,
        0 < fraction_sum(ws).1,
    decreases ws.len(),
{
    if ws.len() > 0 {
        lemma_sum_is_proper(ws.drop_last());
        let (p, q) = fraction_sum(ws.drop_last());
        let (n, d) = ws.last();
        assert(ws[ws.len() - 1] == (n, d));
        assert(0 <= p * d + n * q && 0 < q * d) by (nonlinear_arith)
            requires
                0 <= p,
                0 < q,
                0 <= n,
                0 < d,
            ;
    }
}

proof fn lemma_regroup(p: int, q: int, n: int, d: int, x: int, y: int)
    ensures
        (p * y + x * q) * d + n * (q * y) == (p * d + n * q) * y + x * (q * d),
        (q * y) * d == (q * d) * y,
{
    assert((p * y + x * q) * d == (p * d) * y + x * (q * d)) by (nonlinear_arith);
    assert((p * d + n * q) * y == (p * d) * y + n * (q * y)) by (nonlinear_arith);
    assert((q * y) * d == (q * d) * y) by (nonlinear_arith);
}

proof fn lemma_spread(a: int, p: int, d: int, n: int, q: int, e: int)
    ensures
        (a * (p * d + n * q)) * e == a * (p * (d * e)) + a * (q * (n * e)),
{
    assert((p * d + n * q) * e == p * (d * e) + q * (n * e)) by {
        assert((p * d) * e == p * (d * e)) by (nonlinear_arith);
        assert((n * q) * e == q * (n * e)) by (nonlinear_arith);
        let x = p * d;
        let y = n * q;
        assert((x + y) * e == x * e + y * e) by (nonlinear_arith);
    }
    let z = p * d + n * q;
    assert((a * z) * e == a * (z * e)) by (nonlinear_arith);
    let x = p * (d * e);
    let y = q * (n * e);
    assert(a * (x + y) == a * x + a * y) by (nonlinear_arith);
}

/// How far the open interest is above the positions, over a common denominator,
/// before and after one fraction was replaced.
proof fn lemma_slack(p: int, q: int, n: int, d: int, n2: int, d2: int, a: int, oi: int, oi2: int)
    ensures
        (oi2 * (q * d2) - a * (p * d2 + n2 * q)) * d == (oi * (q * d) - a * (p * d + n * q)) * d2 + q * ((oi2 - oi) * (d
                    * d2) - a * (n2 * d) + a * (n * d2)),
{
    let m = q * (d * d2);
    let t = a * (p * (d * d2));
    let u = a * (q * (n2 * d));
    let v = a * (q * (n * d2));
    assert((oi2 * (q * d2)) * d == oi2 * m) by (nonlinear_arith)
        requires
            m == q * (d * d2),
        ;
    assert((oi * (q * d)) * d2 == oi * m) by (nonlinear_arith)
        requires
            m == q * (d * d2),
        ;
    lemma_spread(a, p, d2, n2, q, d);
    lemma_spread(a, p, d, n, q, d2);
    assert(d * d2 == d2 * d) by (nonlinear_arith);
    assert(q * ((oi2 - oi) * (d * d2)) == (oi2 - oi) * m) by (nonlinear_arith)
        requires
            m == q * (d * d2),
        ;
    assert(q * (a * (n2 * d)) == u) by (nonlinear_arith)
        requires
            u == a * (q * (n2 * d)),
        ;
    assert(q * (a * (n * d2)) == v) by (nonlinear_arith)
        requires
            v == a * (q * (n * d2)),
        ;
    let e = (oi2 - oi) * (d * d2);
    let f = a * (n2 * d);
    let g = a * (n * d2);
    assert(q * (e - f + g) == q * e - q * f + q * g) by (nonlinear_arith);
    let h = oi2 * (q * d2);
    let k = a * (p * d2 + n2 * q);
    assert((h - k) * d == h * d - k * d) by (nonlinear_arith);
    let h0 = oi * (q * d);
    let k0 = a * (p * d + n * q);
    assert((h0 - k0) * d2 == h0 * d2 - k0 * d2) by (nonlinear_arith);
    assert((oi2 - oi) * m == oi2 * m - oi * m) by (nonlinear_arith);
}

/// The sum without one fraction, to which the others add up with any in its place.
proof fn lemma_take_out(ws: Seq<(int, int)>, i: int) -> (r: (int, int))
    requires
        proper(ws),
        0 <= i < ws.len(),
    ensures
        0 <= r.0,
        0 < r.1,
        fraction_sum(ws) == (r.0 * ws[i].1 + ws[i].0 * r.1, r.1 * ws[i].1),
        forall|w: (int, int)| fraction_sum(#[trigger] ws.update(i, w)) == (r.0 * w.1 + w.0 * r.1, r.1 * w.1),
    decreases ws.len(),
{
    let rest = ws.drop_last();
    if i == ws.len() - 1 {
        lemma_sum_is_proper(rest);
        let r = fraction_sum(rest);
        assert forall|w: (int, int)| fraction_sum(#[trigger] ws.update(i, w)) == (r.0 * w.1 + w.0 * r.1, r.1 * w.1) by {
            assert(ws.update(i, w).drop_last() =~= rest);
        }
        r
    } else {
        let (p, q) = lemma_take_out(rest, i);
        let (n, d) = ws.last();
        assert(ws[ws.len() - 1] == (n, d));
        let r = (p * d + n * q, q * d);
        assert(0 <= p * d + n * q && 0 < q * d) by (nonlinear_arith)
            requires
                0 <= p,
                0 < q,
                0 <= n,
                0 < d,
            ;
        assert forall|w: (int, int)| fraction_sum(#[trigger] ws.update(i, w)) == (r.0 * w.1 + w.0 * r.1, r.1 * w.1) by {
            assert(ws.update(i, w).drop_last() =~= rest.update(i, w));
            lemma_regroup(p, q, n, d, w.0, w.1);
        }
        assert(ws.update(i, ws[i]) =~= ws);
        r
    }
}

/// One fraction replaced by another. The open interest follows up to a remainder
/// that the dust bound takes up.
proof fn lemma_replace(ws: Seq<(int, int)>, i: int, w: (int, int), a: int, oi: int, dust: int, oi2: int, dust2: int)
    requires
        proper(ws),
        0 <= i < ws.len(),
        0 <= w.0,
        0 < w.1,
        backs(ws, a, oi, dust),
        0 <= (oi2 - oi) * (ws[i].1 * w.1) - a * (w.0 * ws[i].1) + a * (ws[i].0 * w.1) <= (dust2 - dust) * (ws[i].1 * w.1),
    ensures
        backs(ws.update(i, w), a, oi2, dust2),
{
    let (p, q) = lemma_take_out(ws, i);
    let (n, d) = ws[i];
    let (n2, d2) = w;
    let x = oi * (q * d) - a * (p * d + n * q);
    let x2 = oi2 * (q * d2) - a * (p * d2 + n2 * q);
    let y = (oi2 - oi) * (d * d2) - a * (n2 * d) + a * (n * d2);
    lemma_slack(p, q, n, d, n2, d2, a, oi, oi2);
    assert(0 <= x2) by (nonlinear_arith)
        requires
            x2 * d == x * d2 + q * y,
            0 <= x,
            0 < d2,
            0 < q,
            0 <= y,
            0 < d,
        ;
    assert(x2 <= dust2 * (q * d2)) by {
        assert(x * d2 <= (dust * (q * d)) * d2) by (nonlinear_arith)
            requires
                x <= dust * (q * d),
                0 < d2,
            ;
        assert(q * y <= q * ((dust2 - dust) * (d * d2))) by (nonlinear_arith)
            requires
                y <= (dust2 - dust) * (d * d2),
                0 < q,
            ;
        let m = q * (d * d2);
        assert((dust * (q * d)) * d2 == dust * m) by (nonlinear_arith)
            requires
                m == q * (d * d2),
            ;
        assert(q * ((dust2 - dust) * (d * d2)) == (dust2 - dust) * m) by (nonlinear_arith)
            requires
                m == q * (d * d2),
            ;
        assert((dust2 * (q * d2)) * d == dust2 * m) by (nonlinear_arith)
            requires
                m == q * (d * d2),
            ;
        assert(dust * m + (dust2 - dust) * m == dust2 * m) by (nonlinear_arith);
        assert(x2 <= dust2 * (q * d2)) by (nonlinear_arith)
            requires
                x2 * d <= (dust2 * (q * d2)) * d,
                0 < d,
            ;
    }
}

/// The open interest falls to `oi2` and the index with it, rounded down. The dust
/// bound takes up what rounding costs.
proof fn lemma_scale(ws: Seq<(int, int)>, a: int, oi: int, dust: int, oi2: int, more: int)
    requires
        proper(ws),
        backs(ws, a, oi, dust),
        0 < a,
        0 < oi,
        0 <= oi2 <= oi,
        0 <= dust,
        0 <= more,
        oi <= more * a || oi2 == oi,
    ensures
        backs(ws, a * oi2 / oi, oi2, dust + more),
{
    let (n, m) = fraction_sum(ws);
    lemma_sum_is_proper(ws);
    let b = a * oi2 / oi;
    let r = (a * oi2) % oi;
    vstd::arithmetic::div_mod::lemma_fundamental_div_mod(a * oi2, oi);
    assert(b * n <= oi2 * m) by {
        assert((b * n) * oi <= (oi2 * m) * oi) by (nonlinear_arith)
            requires
                a * oi2 == oi * b + r,
                0 <= r,
                0 <= n,
                0 <= oi2,
                a * n <= oi * m,
            ;
        assert(b * n <= oi2 * m) by (nonlinear_arith)
            requires
                (b * n) * oi <= (oi2 * m) * oi,
                0 < oi,
            ;
    }
    // What is left over, times the old open interest.
    let x = oi2 * m - b * n;
    let slack = oi * m - a * n;
    assert(x * oi == oi2 * slack + n * r) by (nonlinear_arith)
        requires
            a * oi2 == oi * b + r,
            x == oi2 * m - b * n,
            slack == oi * m - a * n,
        ;
    assert(oi2 * slack <= oi * (dust * m)) by (nonlinear_arith)
        requires
            0 <= oi2 <= oi,
            0 <= slack <= dust * m,
        ;
    assert(n * r <= oi * (more * m)) by {
        if oi2 == oi {
            vstd::arithmetic::div_mod::lemma_mod_multiples_basic(a, oi);
            assert(n * r == 0) by (nonlinear_arith)
                requires
                    r == 0,
                ;
            assert(0 <= oi * (more * m)) by (nonlinear_arith)
                requires
                    0 < oi,
                    0 <= more,
                    0 < m,
                ;
        } else {
            assert(a * (n * r) <= a * (oi * (more * m))) by (nonlinear_arith)
                requires
                    0 <= r < oi,
                    0 <= n,
                    a * n <= oi * m,
                    oi <= more * a,
                    0 < oi,
                    0 < m,
                    0 < a,
                ;
            assert(n * r <= oi * (more * m)) by (nonlinear_arith)
                requires
                    a * (n * r) <= a * (oi * (more * m)),
                    0 < a,
                ;
        }
    }
    assert(x <= (dust + more) * m) by (nonlinear_arith)
        requires
            x * oi <= oi * (dust * m) + oi * (more * m),
            0 < oi,
        ;
}

/// The account has a position on a side.
pub open spec fn on_side(a: Account, side: Side) -> bool {
    side_of(a.position_basis_q as int) == Some(side)
}

/// What an account adds to a side in epoch `epoch`: its stored position over the
/// index at which it was stored. Positions of earlier epochs add nothing.
pub open spec fn weight(a: Account, side: Side, epoch: u64) -> (int, int) {
    if on_side(a, side) && a.adl_epoch_snap == epoch && a.adl_a_basis != 0 {
        (abs_of(a.position_basis_q as int), a.adl_a_basis as int)
    } else {
        (0, 1)
    }
}

/// The part of a signed position that is on a side.
pub open spec fn part_on(q: int, side: Side) -> int {
    match side {
        Side::Long => pos_of(q),
        Side::Short => pos_of(-q),
    }
}

/// The stored position is the same.
pub open spec fn same_position(a: Account, b: Account) -> bool {
    &&& b.position_basis_q == a.position_basis_q
    &&& a.position_basis_q != 0 ==> b.adl_a_basis == a.adl_a_basis && b.adl_epoch_snap == a.adl_epoch_snap
}

impl EngineState {
    pub open spec fn weights(self, side: Side) -> Seq<(int, int)> {
        Seq::new(self.accounts.len(), |j: int| weight(self.accounts[j], side, self.epoch_side(side)))
    }

    /// The positions of a side come to `oi`, but for what its dust bound covers.
    pub open spec fn backs_interest(self, side: Side, oi: int) -> bool {
        backs(self.weights(side), self.a_side(side) as int, oi, self.dust_bound(side) as int)
    }

    /// The index of a side is positive, its open interest within the limit, no
    /// position is of a later epoch, and a side that waits for its reset is empty.
    pub open spec fn side_in_order(self, side: Side) -> bool {
        &&& self.a_side(side) > 0
        &&& self.oi_eff(side) <= MAX_OI_SIDE_Q
        &&& forall|j: int|
        0 <= j < self.accounts.len() && on_side(#[trigger] self.accounts[j], side) ==> self.accounts[j].adl_epoch_snap
            <= self.epoch_side(side)
        &&& self.side_mode(side) == SideMode::ResetPending ==> self.oi_eff(side) == 0
    }

    /// The open interest of both sides is backed by positions.
    pub open spec fn interest_backed(self) -> bool {
        &&& self.side_in_order(Side::Long)
        &&& self.side_in_order(Side::Short)
        &&& self.backs_interest(Side::Long, self.oi_eff_long_q as int)
        &&& self.backs_interest(Side::Short, self.oi_eff_short_q as int)
    }

    /// A side has the same index, epoch, dust bound, open interest and mode in `t`.
    pub open spec fn same_side(self, t: EngineState, side: Side) -> bool {
        &&& t.a_side(side) == self.a_side(side)
        &&& t.epoch_side(side) == self.epoch_side(side)
        &&& t.dust_bound(side) == self.dust_bound(side)
        &&& t.oi_eff(side) == self.oi_eff(side)
        &&& t.side_mode(side) == self.side_mode(side)
    }

    /// Every stored position is the same in `t`.
    pub open spec fn same_positions(self, t: EngineState) -> bool {
        &&& t.accounts.len() == self.accounts.len()
        &&& forall|j: int| 0 <= j < self.accounts.len() ==> same_position(self.accounts[j], #[trigger] t.accounts[j])
    }

    /// Nothing changes that open interest depends on.
    pub open spec fn same_interest(self, t: EngineState) -> bool {
        &&& self.same_side(t, Side::Long)
        &&& self.same_side(t, Side::Short)
        &&& self.same_positions(t)
    }
}

proof fn lemma_weights_are_proper(s: EngineState, side: Side)
    ensures
        proper(s.weights(side)),
{
}

/// Positions that stay the same add the same.
pub proof fn lemma_same_weights(s: EngineState, t: EngineState, side: Side)
    requires
        s.same_positions(t),
        t.epoch_side(side) == s.epoch_side(side),
    ensures
        t.weights(side) == s.weights(side),
        s.side_in_order(side) && t.a_side(side) == s.a_side(side) && t.oi_eff(side) == s.oi_eff(side) && t.side_mode(side)
            == s.side_mode(side) ==> t.side_in_order(side),
{
    assert forall|j: int| 0 <= j < s.accounts.len() implies weight(#[trigger] t.accounts[j], side, t.epoch_side(side))
        == weight(s.accounts[j], side, s.epoch_side(side)) by {
        assert(same_position(s.accounts[j], t.accounts[j]));
    }
    assert(t.weights(side) =~= s.weights(side));
    assert forall|j: int| 0 <= j < t.accounts.len() && on_side(#[trigger] t.accounts[j], side)
        && s.side_in_order(side) implies t.accounts[j].adl_epoch_snap <= t.epoch_side(side) by {
        assert(same_position(s.accounts[j], t.accounts[j]));
        assert(on_side(s.accounts[j], side));
    }
}

/// What is carried within an instruction stays so, too.
pub proof fn unchanged_interest_is_carried(s: EngineState, t: EngineState, c: CtxState)
    requires
        s.same_interest(t),
    ensures
        s.interest_carried(c) ==> t.interest_carried(c),
{
    lemma_same_weights(s, t, Side::Long);
    lemma_same_weights(s, t, Side::Short);
}

/// The open interest stays backed where nothing changes that it depends on.
pub proof fn unchanged_interest_is_backed(s: EngineState, t: EngineState)
    requires
        s.same_interest(t),
    ensures
        s.interest_backed() ==> t.interest_backed(),
{
    lemma_same_weights(s, t, Side::Long);
    lemma_same_weights(s, t, Side::Short);
}

/// One account's position changes, with the rest of the side as it was but for
/// the dust bound.
proof fn lemma_one_changed(s: EngineState, t: EngineState, i: int, side: Side)
    requires
        0 <= i < s.accounts.len(),
        t.accounts == s.accounts.update(i, t.accounts[i]),
        t.epoch_side(side) == s.epoch_side(side),
    ensures
        t.weights(side) == s.weights(side).update(i, weight(t.accounts[i], side, t.epoch_side(side))),
{
    assert(t.weights(side) =~= s.weights(side).update(i, weight(t.accounts[i], side, t.epoch_side(side))));
}

/// The remainder that a replaced position leaves is within the dust that is added.
proof fn lemma_new_weight(n: int, d: int, a: int, e: int, r: int, more: int, new: int)
    requires
        n * a == d * e + r,
        0 <= r < d,
        0 <= more,
        r != 0 ==> more == 1,
        0 < a,
    ensures
        0 <= (0 - e) * (d * 1) - a * (0 * d) + a * (n * 1) <= more * (d * 1),
        0 <= (new - e) * (d * a) - a * (new * d) + a * (n * a) <= more * (d * a),
{
    assert(r <= more * d) by (nonlinear_arith)
        requires
            0 <= r < d,
            0 <= more,
            r != 0 ==> more == 1,
        ;
    assert((0 - e) * (d * 1) - a * (0 * d) + a * (n * 1) == r) by (nonlinear_arith)
        requires
            n * a == d * e + r,
        ;
    assert((new - e) * (d * a) == new * (d * a) - e * (d * a)) by (nonlinear_arith);
    assert(a * (new * d) == new * (d * a)) by (nonlinear_arith);
    assert(a * (n * a) == a * (d * e) + a * r) by (nonlinear_arith)
        requires
            n * a == d * e + r,
        ;
    assert(a * (d * e) == e * (d * a)) by (nonlinear_arith);
    assert(0 <= a * r <= more * (d * a)) by (nonlinear_arith)
        requires
            0 <= r <= more * d,
            0 < a,
        ;
}

/// The part of an account's position that is on a side is what its weight comes to
/// at the index of the side, rounded down.
proof fn lemma_part(s: EngineState, i: int, side: Side)
    requires
        0 <= i < s.accounts.len(),
    ensures
        part_on(s.effective_pos(i), side) == s.weights(side)[i].0 * s.a_side(side) / s.weights(side)[i].1,
{
    let acc = s.accounts[i];
    let basis = acc.position_basis_q as int;
    if basis != 0 && acc.adl_a_basis != 0 {
        let b = abs_of(basis);
        let a = s.a_side(side_of(basis)->0) as int;
        assert(0 <= b * a) by (nonlinear_arith)
            requires
                0 <= b,
                0 <= a,
            ;
        vstd::arithmetic::div_mod::lemma_div_pos_is_pos(b * a, acc.adl_a_basis as int);
    }
    assert(0 * s.a_side(side) / 1 == 0);
}

/// No position stands for more than the open interest of its side.
pub proof fn position_is_within_interest(s: EngineState, i: int, side: Side)
    requires
        0 <= i < s.accounts.len(),
        s.backs_interest(side, s.oi_eff(side) as int),
    ensures
        0 <= part_on(s.effective_pos(i), side) <= s.oi_eff(side),
{
    lemma_part(s, i, side);
    lemma_weights_are_proper(s, side);
    let ws = s.weights(side);
    let (p, q) = lemma_take_out(ws, i);
    let (n, d) = ws[i];
    let a = s.a_side(side) as int;
    let oi = s.oi_eff(side) as int;
    assert(0 <= n * a <= oi * d) by {
        assert(0 <= a * (p * d)) by (nonlinear_arith)
            requires
                0 <= a,
                0 <= p,
                0 < d,
            ;
        assert(a * (p * d + n * q) == a * (p * d) + (n * a) * q) by (nonlinear_arith);
        assert(oi * (q * d) == (oi * d) * q) by (nonlinear_arith);
        assert(n * a <= oi * d) by (nonlinear_arith)
            requires
                (n * a) * q <= (oi * d) * q,
                0 < q,
            ;
        assert(0 <= n * a) by (nonlinear_arith)
            requires
                0 <= n,
                0 <= a,
            ;
    }
    vstd::arithmetic::div_mod::lemma_div_is_ordered(n * a, oi * d, d);
    vstd::arithmetic::div_mod::lemma_div_pos_is_pos(n * a, d);
    vstd::arithmetic::div_mod::lemma_div_multiples_vanish(oi, d);
    assert(oi * d == d * oi) by (nonlinear_arith);
}

/// A new position on an account: the open interest that is backed changes by what
/// the old position stood for, in whole units, and the new one.
pub proof fn lemma_attach(s: EngineState, i: int, q: i128, side: Side, oi: int)
    requires
        0 <= i < s.accounts.len(),
        s.side_in_order(side),
        s.backs_interest(side, oi),
    ensures
        s.attach_position(i, q) matches Ok(t) ==> {
            &&& t.accounts == s.accounts.update(i, t.accounts[i])
            &&& t.a_side(side) == s.a_side(side)
            &&& t.epoch_side(side) == s.epoch_side(side)
            &&& t.oi_eff(side) == s.oi_eff(side)
            &&& t.side_mode(side) == s.side_mode(side)
            &&& t.side_in_order(side)
            &&& t.backs_interest(side, oi - part_on(s.effective_pos(i), side) + part_on(q as int, side))
        },
{
    reveal(EngineState::attach_position);
    if let Ok(t) = s.attach_position(i, q) {
        let ws = s.weights(side);
        let a = s.a_side(side) as int;
        let e = part_on(s.effective_pos(i), side);
        let (n, d) = ws[i];
        lemma_weights_are_proper(s, side);
        assert(t.accounts =~= s.accounts.update(i, t.accounts[i]));
        lemma_one_changed(s, t, i, side);
        let w = weight(t.accounts[i], side, t.epoch_side(side));
        assert(0 <= n * a) by (nonlinear_arith)
            requires
                0 <= n,
                0 <= a,
            ;
        vstd::arithmetic::div_mod::lemma_fundamental_div_mod(n * a, d);
        vstd::arithmetic::div_mod::lemma_div_pos_is_pos(n * a, d);
        let r = (n * a) % d;
        lemma_part(s, i, side);
        let more = t.dust_bound(side) - s.dust_bound(side);
        assert(0 <= more && (r != 0 ==> more == 1));
        let new = part_on(q as int, side);
        lemma_new_weight(n, d, a, e, r, more, new);
        assert(w == (0int, 1int) && new == 0 || w == (new, a));
        lemma_replace(ws, i, w, a, oi, s.dust_bound(side) as int, oi - e + new, t.dust_bound(side) as int);
    }
}

/// Removing a position that stands for less than one unit leaves a remainder that
/// one more unit of dust takes up; removing one of an earlier epoch leaves none.
pub proof fn lemma_clear(s: EngineState, t: EngineState, i: int, side: Side, oi: int)
    requires
        0 <= i < s.accounts.len(),
        s.side_in_order(side),
        s.backs_interest(side, oi),
        s.effective_pos(i) == 0,
        t.accounts == s.accounts.update(i, t.accounts[i]),
        t.accounts[i].position_basis_q == 0,
        t.a_side(side) == s.a_side(side),
        t.epoch_side(side) == s.epoch_side(side),
        t.oi_eff(side) == s.oi_eff(side),
        t.side_mode(side) == s.side_mode(side),
        t.dust_bound(side) >= s.dust_bound(side),
        s.weights(side)[i].0 == 0 || t.dust_bound(side) == s.dust_bound(side) + 1,
    ensures
        t.side_in_order(side),
        t.backs_interest(side, oi),
{
    let ws = s.weights(side);
    let a = s.a_side(side) as int;
    let (n, d) = ws[i];
    lemma_weights_are_proper(s, side);
    lemma_one_changed(s, t, i, side);
    lemma_part(s, i, side);
    assert(0 <= n * a) by (nonlinear_arith)
        requires
            0 <= n,
            0 <= a,
        ;
    vstd::arithmetic::div_mod::lemma_fundamental_div_mod(n * a, d);
    let more = t.dust_bound(side) - s.dust_bound(side);
    assert(0 <= (oi - oi) * (d * 1) - a * (0 * d) + a * (n * 1) <= more * (d * 1)) by (nonlinear_arith)
        requires
            n * a == d * 0 + (n * a) % d,
            0 <= (n * a) % d < d,
            0 <= n * a,
            n == 0 || more == 1,
            0 <= more,
        ;
    lemma_replace(ws, i, (0, 1), a, oi, s.dust_bound(side) as int, oi, t.dust_bound(side) as int);
}

proof fn lemma_no_weights(ws: Seq<(int, int)>)
    requires
        forall|j: int| 0 <= j < ws.len() ==> #[trigger] ws[j] == (0int, 1int),
    ensures
        fraction_sum(ws) == (0int, 1int),
    decreases ws.len(),
{
    if ws.len() > 0 {
        assert forall|j: int| 0 <= j < ws.drop_last().len() implies #[trigger] ws.drop_last()[j] == (0int, 1int) by {
            assert(ws[j] == (0int, 1int));
        }
        lemma_no_weights(ws.drop_last());
        assert(ws[ws.len() - 1] == (0int, 1int));
    }
}

/// A new epoch starts with nothing on the side.
pub proof fn lemma_reset(s: EngineState, side: Side)
    requires
        s.side_in_order(side),
    ensures
        s.begin_reset(side) matches Ok(t) ==> {
            &&& t.side_in_order(side)
            &&& t.backs_interest(side, t.oi_eff(side) as int)
            &&& t.oi_eff(side) == 0
            &&& s.same_side(t, other_side(side))
            &&& t.accounts == s.accounts
        },
{
    if let Ok(t) = s.begin_reset(side) {
        let ws = t.weights(side);
        assert forall|j: int| 0 <= j < ws.len() implies #[trigger] ws[j] == (0int, 1int) by {
            assert(on_side(s.accounts[j], side) ==> s.accounts[j].adl_epoch_snap <= s.epoch_side(side));
        }
        lemma_no_weights(ws);
        assert forall|j: int| 0 <= j < t.accounts.len() && on_side(#[trigger] t.accounts[j], side) implies
        t.accounts[j].adl_epoch_snap <= t.epoch_side(side) by {
            assert(on_side(s.accounts[j], side));
        }
    }
}

impl CtxState {
    /// A reset of a side is scheduled.
    pub open spec fn reset_pending(self, side: Side) -> bool {
        match side {
            Side::Long => self.pending_reset_long,
            Side::Short => self.pending_reset_short,
        }
    }
}

impl EngineState {
    /// Within an instruction: a side is backed, or its reset is scheduled.
    pub open spec fn side_carried(self, c: CtxState, side: Side) -> bool {
        &&& self.side_in_order(side)
        &&& self.backs_interest(side, self.oi_eff(side) as int) || (c.reset_pending(side) && self.side_mode(side)
                != SideMode::ResetPending)
    }

    pub open spec fn interest_carried(self, c: CtxState) -> bool {
        self.side_carried(c, Side::Long) && self.side_carried(c, Side::Short)
    }
}

/// Once scheduled resets have begun, both sides are backed again.
pub proof fn resets_back_interest(s: EngineState, c: CtxState)
    requires
        s.interest_carried(c),
    ensures
        s.schedule_resets(c) matches Ok(r) ==> (r.0.finalize_resets(r.1) matches Ok(t) ==> t.interest_backed() && t.accounts
                == s.accounts),
{
    reveal(EngineState::schedule_resets);
    reveal(EngineState::finalize_resets);
    if let Ok(r) = s.schedule_resets(c) {
        if let Ok(t) = r.0.finalize_resets(r.1) {
            let s0 = r.0;
            lemma_same_weights(s, s0, Side::Long);
            lemma_same_weights(s, s0, Side::Short);
            assert(s0.side_in_order(Side::Long));
            assert(s0.side_in_order(Side::Short));
            assert(s0.interest_carried(r.1));
            let s1 = if r.1.pending_reset_long && s0.side_mode_long != SideMode::ResetPending {
                s0.begin_reset(Side::Long)->Ok_0
            } else {
                s0
            };
            lemma_reset(s0, Side::Long);
            lemma_same_weights(s0, s1, Side::Short);
            assert(s1.side_in_order(Side::Long) && s1.backs_interest(Side::Long, s1.oi_eff_long_q as int));
            assert(s1.side_carried(r.1, Side::Short));
            let s2 = if r.1.pending_reset_short && s1.side_mode_short != SideMode::ResetPending {
                s1.begin_reset(Side::Short)->Ok_0
            } else {
                s1
            };
            lemma_reset(s1, Side::Short);
            lemma_same_weights(s1, s2, Side::Long);
            assert(s2.interest_backed());
            assert(t == s2.reopen_ready());
            reopening_keeps_interest_backed(s2);
        }
    }
}

/// Reopening one side keeps both backed.
pub proof fn reopened_side_is_backed(s: EngineState, side: Side)
    requires
        s.interest_backed(),
    ensures
        s.finish_reset(side) matches Ok(t) ==> t.interest_backed(),
{
    if let Ok(t) = s.finish_reset(side) {
        lemma_same_weights(s, t, Side::Long);
        lemma_same_weights(s, t, Side::Short);
        assert forall|j: int| 0 <= j < t.accounts.len() && on_side(#[trigger] t.accounts[j], side) implies
        t.accounts[j].adl_epoch_snap <= t.epoch_side(side) by {
            assert(on_side(s.accounts[j], side));
        }
    }
}

/// Reopening sides keeps them backed.
pub proof fn reopening_keeps_interest_backed(s: EngineState)
    requires
        s.interest_backed(),
    ensures
        s.reopen_ready().interest_backed(),
{
    let t = s.reopen_ready();
    lemma_same_weights(s, t, Side::Long);
    lemma_same_weights(s, t, Side::Short);
    assert forall|j: int| 0 <= j < t.accounts.len() && on_side(#[trigger] t.accounts[j], Side::Long) implies
    t.accounts[j].adl_epoch_snap <= t.epoch_side(Side::Long) by {
        assert(on_side(s.accounts[j], Side::Long));
    }
    assert forall|j: int| 0 <= j < t.accounts.len() && on_side(#[trigger] t.accounts[j], Side::Short) implies
    t.accounts[j].adl_epoch_snap <= t.epoch_side(Side::Short) by {
        assert(on_side(s.accounts[j], Side::Short));
    }
}

impl EngineState {
    /// From `self` to `t` at most account `i` changes, and no position does.
    pub open spec fn only_other_fields(self, t: EngineState, i: int) -> bool {
        &&& t.accounts == self.accounts.update(i, t.accounts[i])
        &&& same_position(self.accounts[i], t.accounts[i])
        &&& self.same_side(t, Side::Long)
        &&& self.same_side(t, Side::Short)
    }
}

/// Raising the PnL of an account leaves positions and other accounts alone.
pub proof fn lemma_raise_is_apart(s: EngineState, i: int, pnl: i128, mode: ReserveMode, c: CtxState)
    requires
        0 <= i < s.accounts.len(),
    ensures
        s.raise_pnl(i, pnl, mode, c) matches Ok(r) ==> s.only_other_fields(r.0, i) && r.1.pending_reset_long
            == c.pending_reset_long && r.1.pending_reset_short == c.pending_reset_short,
{
    reveal(EngineState::raise_pnl);
    if let Ok(r) = s.raise_pnl(i, pnl, mode, c) {
        assert(r.0.accounts =~= s.accounts.update(i, r.0.accounts[i]));
    }
}

/// Lowering the PnL of an account leaves positions and other accounts alone.
pub proof fn lemma_lower_is_apart(s: EngineState, i: int, pnl: i128)
    requires
        0 <= i < s.accounts.len(),
    ensures
        s.lower_pnl(i, pnl) matches Ok(t) ==> s.only_other_fields(t, i),
{
    reveal(EngineState::lower_pnl);
    if let Ok(t) = s.lower_pnl(i, pnl) {
        assert(t.accounts =~= s.accounts.update(i, t.accounts[i]));
    }
}

/// A change of PnL leaves the open interest alone.
pub proof fn lemma_pnl_is_apart(s: EngineState, i: int, pnl: i128, mode: ReserveMode, c: CtxState)
    requires
        0 <= i < s.accounts.len(),
    ensures
        s.set_pnl(i, pnl, mode, c) matches Ok(r) ==> s.same_interest(r.0) && r.1.pending_reset_long == c.pending_reset_long
            && r.1.pending_reset_short == c.pending_reset_short,
        s.set_pnl_plain(i, pnl, mode) matches Ok(t) ==> s.same_interest(t),
{
    reveal(EngineState::set_pnl);
    lemma_raise_is_apart(s, i, pnl, mode, c);
    lemma_raise_is_apart(s, i, pnl, mode, CtxState::fresh(0, 0));
    lemma_lower_is_apart(s, i, pnl);
}

/// Settling losses leaves the open interest alone.
pub proof fn lemma_losses_are_apart(s: EngineState, i: int)
    requires
        0 <= i < s.accounts.len(),
    ensures
        s.settle_losses(i) matches Ok(t) ==> s.same_interest(t),
        s.resolve_flat_negative(i) matches Ok(t) ==> s.same_interest(t),
{
    reveal(EngineState::settle_losses);
    reveal(EngineState::resolve_flat_negative);
    let a = s.accounts[i];
    if a.pnl < 0 {
        let pay = min_of(-(a.pnl as int), a.capital.v as int);
        if let Ok(t) = s.set_capital(i, (a.capital.v - pay) as u128) {
            lemma_pnl_is_apart(t, i, (a.pnl + pay) as i128, ReserveMode::ImmediateReleaseResolvedOnly, CtxState::fresh(0, 0));
        }
        lemma_pnl_is_apart(
            s.absorb_loss(-(a.pnl as int)),
            i,
            0,
            ReserveMode::ImmediateReleaseResolvedOnly,
            CtxState::fresh(0, 0),
        );
    }
}

/// Fees leave the open interest alone.
pub proof fn lemma_fees_are_apart(s: EngineState, i: int, fee: u128)
    requires
        0 <= i < s.accounts.len(),
    ensures
        s.charge_fee(i, fee) matches Ok(r) ==> s.same_interest(r.0),
        s.sweep_fee_debt(i) matches Ok(t) ==> s.same_interest(t),
{
    reveal(EngineState::charge_fee);
    reveal(EngineState::sweep_fee_debt);
}

/// What happens to reserves leaves the open interest alone.
pub proof fn lemma_reserves_are_apart(s: EngineState, i: int)
    requires
        0 <= i < s.accounts.len(),
    ensures
        s.admit_outstanding(i) matches Ok(t) ==> s.same_interest(t),
        s.advance_warmup(i) matches Ok(t) ==> s.same_interest(t),
{
    reveal(EngineState::admit_outstanding);
    reveal(EngineState::advance_warmup);
}

proof fn lemma_finish_is_apart(s: EngineState, order: Seq<u16>, whole: bool, n: nat)
    requires
        s.accounts.len() == MAX_ACCOUNTS,
        n <= order.len(),
        forall|k: int| 0 <= k < order.len() ==> s.in_use(#[trigger] order[k] as int),
    ensures
        s.finish_accounts(order, whole, n) matches Ok(t) ==> s.same_interest(t),
    decreases n,
{
    if n > 0 {
        lemma_finish_is_apart(s, order, whole, (n - 1) as nat);
        reveal(EngineState::finish_account);
        reveal(EngineState::consume_released);
        reveal(EngineState::sweep_fee_debt);
        assert(s.in_use(order[n - 1] as int));
    }
}

/// Finishing the touched accounts changes nothing that open interest depends on.
pub proof fn finishing_keeps_interest(s: EngineState, c: CtxState)
    requires
        s.accounts.len() == MAX_ACCOUNTS,
        touched_in_use(s, c),
    ensures
        s.finish_touched(c) matches Ok(t) ==> s.same_interest(t),
{
    reveal(EngineState::finish_touched);
    lemma_finish_is_apart(s, c.touched, s.is_whole(), c.touched.len());
}

/// Settling an account against its side keeps both sides backed.
proof fn lemma_settle_side(s: EngineState, i: int, c: CtxState)
    requires
        0 <= i < s.accounts.len(),
        s.interest_backed(),
    ensures
        s.settle_side_effects(i, c) matches Ok(r) ==> r.0.interest_backed() && r.0.oi_eff_long_q == s.oi_eff_long_q
            && r.0.oi_eff_short_q == s.oi_eff_short_q && r.0.accounts.len() == s.accounts.len() && r.1.pending_reset_long
            == c.pending_reset_long && r.1.pending_reset_short == c.pending_reset_short,
{
    reveal(EngineState::settle_side_effects);
    let a = s.accounts[i];
    if a.position_basis_q != 0 {
        if let Ok(r) = s.settle_side_effects(i, c) {
            let side = side_of(a.position_basis_q as int)->0;
            let mode = ReserveMode::UseAdmissionPair(c.admit_h_min, c.admit_h_max);
            let current = a.adl_epoch_snap == s.epoch_side(side);
            let k = if current {
                s.k_side(side)
            } else {
                s.k_epoch_start(side)
            };
            let f = if current {
                s.f_side(side)
            } else {
                s.f_epoch_start(side)
            };
            let delta = index_pnl_or_overflow(
                abs_of(a.position_basis_q as int),
                k - a.adl_k_snap,
                f - a.f_snap,
                (a.adl_a_basis * POS_SCALE) as u128 as int,
            )->Ok_0;
            let pnl = (a.pnl + delta) as i128;
            lemma_pnl_is_apart(s, i, pnl, mode, c);
            let t = s.set_pnl(i, pnl, mode, c)->Ok_0.0;
            unchanged_interest_is_backed(s, t);
            let u = r.0;
            if current && s.effective_pos(i) != 0 {
                assert(t.same_interest(u));
                unchanged_interest_is_backed(t, u);
            } else {
                assert(t.effective_pos(i) == 0);
                assert(u.accounts =~= t.accounts.update(i, u.accounts[i]));
                lemma_clear(t, u, i, Side::Long, t.oi_eff_long_q as int);
                lemma_clear(t, u, i, Side::Short, t.oi_eff_short_q as int);
            }
        }
    }
}

/// Touching an account keeps both sides backed.
pub proof fn lemma_touch(s: EngineState, i: int, c: CtxState)
    requires
        s.accounts.len() == MAX_ACCOUNTS,
        s.interest_backed(),
    ensures
        s.touch(i, c) matches Ok(r) ==> r.0.interest_backed() && r.0.oi_eff_long_q == s.oi_eff_long_q
            && r.0.oi_eff_short_q == s.oi_eff_short_q && r.0.accounts.len() == s.accounts.len() && r.1.pending_reset_long
            == c.pending_reset_long && r.1.pending_reset_short == c.pending_reset_short,
{
    reveal(EngineState::touch);
    if let Ok(r) = s.touch(i, c) {
        let c1 = c.touch(i as u16)->0;
        lemma_reserves_are_apart(s, i);
        let s1 = s.admit_outstanding(i)->Ok_0;
        unchanged_interest_is_backed(s, s1);
        lemma_reserves_are_apart(s1, i);
        let s2 = s1.advance_warmup(i)->Ok_0;
        unchanged_interest_is_backed(s1, s2);
        lemma_settle_side(s2, i, c1);
        let s3 = s2.settle_side_effects(i, c1)->Ok_0.0;
        lemma_losses_are_apart(s3, i);
        let s4 = s3.settle_losses(i)->Ok_0;
        unchanged_interest_is_backed(s3, s4);
        lemma_losses_are_apart(s4, i);
        unchanged_interest_is_backed(s4, r.0);
    }
}

/// What the positions of a side without any come to.
pub proof fn lemma_no_positions(s: EngineState, side: Side)
    requires
        s.books(),
        s.stored_pos_count(side) == 0,
    ensures
        fraction_sum(s.weights(side)) == (0int, 1int),
{
    let ws = s.weights(side);
    assert forall|j: int| 0 <= j < ws.len() implies #[trigger] ws[j] == (0int, 1int) by {
        lemma_counts(s.accounts, j);
    }
    lemma_no_weights(ws);
}

proof fn lemma_adl_dust(oi: int, n: int, a: int)
    requires
        0 <= oi <= u128::MAX,
        0 <= n,
        0 < a,
    ensures
        0 <= adl_dust(oi, n, a),
        oi <= adl_dust(oi, n, a) * a,
{
    let x = oi + n;
    vstd::arithmetic::div_mod::lemma_fundamental_div_mod(x, a);
    vstd::arithmetic::div_mod::lemma_div_pos_is_pos(x, a);
    let c = ceil_div(x, a);
    assert(x <= c * a) by (nonlinear_arith)
        requires
            x == a * (x / a) + x % a,
            0 <= x % a < a,
            c == if x % a == 0 {
                x / a
            } else {
                x / a + 1
            },
        ;
    assert(oi <= (n + c) * a) by (nonlinear_arith)
        requires
            oi <= c * a,
            0 <= n,
            0 < a,
        ;
    assert(oi <= u128::MAX * a) by (nonlinear_arith)
        requires
            0 <= oi <= u128::MAX,
            0 < a,
        ;
}

/// Scaling a side down keeps it backed, or schedules its reset.
proof fn lemma_shrink(s: EngineState, c: CtxState, side: Side, oi_post: u128)
    requires
        s.side_in_order(side),
        s.side_in_order(other_side(side)),
        s.backs_interest(side, s.oi_eff(side) as int),
        s.side_carried(c, other_side(side)),
        s.side_mode(other_side(side)) != SideMode::ResetPending,
        0 < oi_post <= s.oi_eff(side),
    ensures
        s.shrink_side(c, side, s.oi_eff(side) as int, oi_post) matches Ok(r) ==> r.0.side_carried(r.1, side)
            && r.0.side_carried(r.1, other_side(side)) && r.0.accounts == s.accounts,
{
    let oi = s.oi_eff(side) as int;
    let a = s.a_side(side) as int;
    let more = adl_dust(oi, s.stored_pos_count(side) as int, a);
    lemma_adl_dust(oi, s.stored_pos_count(side) as int, a);
    lemma_weights_are_proper(s, side);
    if let Ok(r) = s.shrink_side(c, side, oi, oi_post) {
        let t = r.0;
        assert(s.same_positions(t));
        lemma_same_weights(s, t, side);
        lemma_same_weights(s, t, other_side(side));
        if muldiv(a, oi_post as int, oi) > 0 {
            lemma_scale(
                s.weights(side),
                a,
                oi,
                s.dust_bound(side) as int,
                oi_post as int,
                if oi_post < oi {
                    more
                } else {
                    0
                },
            );
        }
        assert(a * oi_post / oi <= a) by {
            assert(a * oi_post <= a * oi) by (nonlinear_arith)
                requires
                    0 <= oi_post <= oi,
                    0 < a,
                ;
            vstd::arithmetic::div_mod::lemma_div_is_ordered(a * oi_post, a * oi, oi);
            vstd::arithmetic::div_mod::lemma_div_multiples_vanish(a, oi);
            assert(a * oi == oi * a) by (nonlinear_arith);
        }
        assert forall|j: int| 0 <= j < t.accounts.len() && on_side(#[trigger] t.accounts[j], side) implies
        t.accounts[j].adl_epoch_snap <= t.epoch_side(side) by {
            assert(on_side(s.accounts[j], side));
        }
    }
}

/// Closing a quantity on one side keeps both sides backed, or schedules their
/// reset.
pub proof fn lemma_adl(s: EngineState, c: CtxState, liq: Side, q: u128, d: u128)
    requires
        s.books(),
        s.side_in_order(liq),
        s.side_in_order(other_side(liq)),
        0 < q,
        s.backs_interest(liq, s.oi_eff(liq) - q),
        s.backs_interest(other_side(liq), s.oi_eff(other_side(liq)) as int),
    ensures
        s.enqueue_adl(c, liq, q, d) matches Ok(r) ==> r.0.interest_carried(r.1) && r.0.accounts == s.accounts,
{
    reveal(EngineState::enqueue_adl);
    if let Ok(r) = s.enqueue_adl(c, liq, q, d) {
        let opp = other_side(liq);
        let left = (s.oi_eff(liq) - q) as u128;
        let s1 = s.with_oi_eff(liq, left);
        let s2 = s1.absorb_loss(d as int);
        lemma_same_weights(s, s2, liq);
        lemma_same_weights(s, s2, opp);
        assert(s2.side_in_order(liq));
        assert(s2.side_in_order(opp));
        assert(s2.side_mode(liq) != SideMode::ResetPending);
        assert(s2.backs_interest(liq, left as int));
        let oi = s2.oi_eff(opp);
        if oi != 0 {
            let oi_post = (oi - q) as u128;
            if s2.stored_pos_count(opp) == 0 {
                lemma_no_positions(s, opp);
                let t = r.0;
                lemma_same_weights(s2, t, liq);
                lemma_same_weights(s2, t, opp);
                let a = s.a_side(opp) as int;
                assert(a * 0 == 0) by (nonlinear_arith);
                assert(t.side_in_order(opp));
                assert(t.backs_interest(opp, oi_post as int));
                assert(t.side_carried(r.1, opp));
                assert(t.side_carried(r.1, liq));
            } else {
                let s3 = s2.socialize(opp, d - s1.insured(d as int), oi as int);
                lemma_same_weights(s2, s3, liq);
                lemma_same_weights(s2, s3, opp);
                if oi_post == 0 {
                    let t = r.0;
                    lemma_same_weights(s3, t, liq);
                    lemma_same_weights(s3, t, opp);
                    assert(t.side_in_order(opp));
                    assert(t.side_carried(r.1, opp));
                    assert(t.side_carried(r.1, liq));
                } else {
                    lemma_shrink(s3, c, opp, oi_post);
                    assert(r.0.side_carried(r.1, opp));
                }
            }
        }
    }
}

} // verus!
