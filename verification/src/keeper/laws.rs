//! What the keeper's decision is for, in plain numbers: it liquidates exactly those
//! whose worth, after what the price moved since the last accrual, is less than
//! their maintenance margin, and that pay for the transaction.

use vstd::prelude::*;
use crate::constants::MAX_POSITION_ABS_Q;
use crate::keeper::strategy::{
    action_for, decision, margin_guess, marked_loss, Action, SlabSnapshot,
};
use crate::layout::{engine_of, is_engine};
use crate::model::{basis_ok, EngineState};
use crate::program::operations::first_where_is_first;
use crate::types::SideMode;

verus! {

/// The loss of a position when the price goes from `last` to `price` is what the
/// price moved against it: for a long what it fell, for a short what it rose. A
/// position that gained has none.
pub proof fn loss_is_what_the_price_moved_against(basis: int, last: int, price: int)
    requires
        0 <= price,
    ensures
        marked_loss(basis, last, price) == if last > 0 && basis * (price - last) < 0 {
            (-(basis * (price - last))) / 1_000_000
        } else {
            0
        },
        basis < 0 && 0 < last < price ==> marked_loss(basis, last, price) == ((-basis) * (price - last)) / 1_000_000,
        basis < 0 && price <= last ==> marked_loss(basis, last, price) == 0,
        basis > 0 && 0 < last && price < last ==> marked_loss(basis, last, price) == (basis * (last - price)) / 1_000_000,
        basis > 0 && last <= price ==> marked_loss(basis, last, price) == 0,
{
    let d = price - last;
    if basis > 0 {
        assert(basis * d < 0 <==> d < 0) by (nonlinear_arith)
            requires
                basis > 0,
            ;
        assert(-(basis * d) == basis * (last - price)) by (nonlinear_arith)
            requires
                d == price - last,
            ;
    } else if basis < 0 {
        assert(basis * d < 0 <==> d > 0) by (nonlinear_arith)
            requires
                basis < 0,
            ;
        assert(-(basis * d) == (-basis) * (price - last)) by (nonlinear_arith)
            requires
                d == price - last,
            ;
    } else {
        assert(0 * d == 0);
    }
}

/// Slot `i` is used and holds a position whose holder's capital and PnL, less what
/// the price moved against the position, are below maintenance margin; and half a
/// percent of the capital is at least a thousand.
pub open spec fn is_due(s: EngineState, i: int, price: u64) -> bool {
    let a = s.accounts[i];
    let q = a.position_basis_q as int;
    let size = if q < 0 {
        -q
    } else {
        q
    };
    let moved = q * (price - s.last_oracle_price);
    let loss = if s.last_oracle_price > 0 && moved < 0 {
        (-moved) / 1_000_000
    } else {
        0
    };
    let margin = (size * price / 1_000_000) * s.params.maintenance_margin_bps / 10_000;
    &&& s.in_use(i)
    &&& q != 0
    &&& a.capital.v + a.pnl - loss < margin
    &&& a.capital.v * 50 / 10_000 >= 1_000
}

/// The keeper's estimate is this.
pub proof fn due_accounts_look_underwater(s: EngineState, i: int, price: u64)
    requires
        s.wf(),
        0 <= i < s.accounts.len(),
        s.accounts[i].capital.v <= 10_000_000_000_000_000,
    ensures
        s.looks_underwater(i, price) == is_due(s, i, price),
{
    let a = s.accounts[i];
    let q = a.position_basis_q as int;
    loss_is_what_the_price_moved_against(q, s.last_oracle_price as int, price as int);
    assert(basis_ok(a));
    let size = if q < 0 {
        -q
    } else {
        q
    };
    let last = s.last_oracle_price as int;
    let loss = marked_loss(q, last, price as int);
    assert(0 <= loss <= MAX_POSITION_ABS_Q * u64::MAX) by {
        let d = if price >= last {
            price - last
        } else {
            last - price
        };
        assert(0 <= size * d <= MAX_POSITION_ABS_Q * u64::MAX) by (nonlinear_arith)
            requires
                0 <= size <= MAX_POSITION_ABS_Q,
                0 <= d <= u64::MAX,
            ;
    }
    let margin = margin_guess(q, price as int, s.params.maintenance_margin_bps as int);
    assert(0 <= margin <= MAX_POSITION_ABS_Q * u64::MAX) by {
        assert(0 <= size * price <= MAX_POSITION_ABS_Q * u64::MAX) by (nonlinear_arith)
            requires
                0 <= size <= MAX_POSITION_ABS_Q,
                0 <= price <= u64::MAX,
            ;
        let v = size * price / 1_000_000;
        let bps = s.params.maintenance_margin_bps as int;
        assert(0 <= v * bps <= v * 10_000) by (nonlinear_arith)
            requires
                0 <= v,
                0 <= bps <= 10_000,
            ;
    }
}

/// The capital of every account is within what a vault may hold.
pub open spec fn capital_fits(s: EngineState) -> bool {
    forall|j: int| 0 <= j < s.accounts.len() ==> (#[trigger] s.accounts[j]).capital.v <= 10_000_000_000_000_000
}

/// Slot `i` holds dust: it is used, has neither a position nor PnL nor a reserve,
/// and less capital than a first deposit.
pub open spec fn is_dusty(s: EngineState, i: int) -> bool {
    let a = s.accounts[i];
    &&& s.in_use(i)
    &&& a.position_basis_q == 0
    &&& a.pnl == 0
    &&& a.reserved_pnl == 0
    &&& a.sched_present == 0
    &&& a.pending_present == 0
    &&& a.capital.v < s.params.min_initial_deposit.v
}

/// The decision on an engine. The first account, other than the LP's, that is due
/// is liquidated, for half a percent of its capital. Where none is, the market is
/// accrued if that was long ago; else a side that is to be drained and is empty is
/// reset; else dust is collected, if there is any; else there is nothing to do.
pub proof fn action_is_the_first_that_is_due(s: EngineState, price: u64, now: u64, lag: u64)
    requires
        s.wf(),
        capital_fits(s),
    ensures
        ({
                let n = s.params.max_accounts as int;
                let none_due = forall|j: int| 1 <= j < n ==> !#[trigger] is_due(s, j, price);
                let late = now - s.last_market_slot > lag;
                let drained = (s.side_mode_long == SideMode::DrainOnly && s.oi_eff_long_q == 0) || (s.side_mode_short
                        == SideMode::DrainOnly && s.oi_eff_short_q == 0);
                let dust = exists|j: int| 1 <= j < n && #[trigger] is_dusty(s, j);
                match action_for(s, price, now, lag) {
                    Action::RefreshOracle => false,
                    Action::Liquidate { victim_slot, estimated_bounty } => {
                        &&& 1 <= victim_slot < n
                        &&& is_due(s, victim_slot as int, price)
                        &&& forall|j: int| 1 <= j < victim_slot ==> !#[trigger] is_due(s, j, price)
                        &&& estimated_bounty == s.accounts[victim_slot as int].capital.v * 50 / 10_000
                    },
                    Action::CrankFunding => none_due && late,
                    Action::CrankAdlReset => none_due && !late && drained,
                    Action::CrankGc => none_due && !late && !drained && dust,
                    Action::Skip => none_due && !late && !drained && !dust,
                }
        }),
{
    let n = s.params.max_accounts as int;
    let p = |i: int| s.looks_underwater(i, price);
    first_where_is_first(1, n, p);
    assert forall|j: int| 0 <= j < s.accounts.len() implies #[trigger] is_due(s, j, price) == p(j) by {
        assert(s.accounts[j].capital.v <= 10_000_000_000_000_000);
        due_accounts_look_underwater(s, j, price);
    }
    let d = |i: int| s.reclaimable(i);
    first_where_is_first(1, n, d);
    assert forall|j: int| 0 <= j < s.accounts.len() implies #[trigger] is_dusty(s, j) == d(j) by {}
    match s.liquidation_target(price) {
        Some(i) => {
            assert(p(i as int));
            assert(is_due(s, i as int, price));
            assert(s.accounts[i as int].capital.v <= 10_000_000_000_000_000);
            assert forall|j: int| 1 <= j < i implies !#[trigger] is_due(s, j, price) by {
                assert(!p(j));
            }
        },
        None => {
            assert forall|j: int| 1 <= j < n implies !#[trigger] is_due(s, j, price) by {
                assert(!p(j));
            }
            match s.dust_slot() {
                Some(k) => {
                    assert(d(k as int));
                    assert(is_dusty(s, k as int));
                },
                None => {
                    assert forall|j: int| 1 <= j < n implies !#[trigger] is_dusty(s, j) by {
                        assert(!d(j));
                    }
                },
            }
        },
    }
}

/// The decision on a snapshot: a price that is missing or too old is refreshed
/// before anything else, and otherwise the engine decides.
pub proof fn decision_starts_with_the_price(snap: SlabSnapshot)
    requires
        is_engine(snap.engine_bytes@),
    ensures
        snap.oracle_price is None || snap.now_slot - snap.oracle_last_update_slot > snap.stale_slots ==> decision(snap)
            == Action::RefreshOracle,
        snap.oracle_price is Some && snap.now_slot - snap.oracle_last_update_slot <= snap.stale_slots ==> decision(snap)
            == action_for(engine_of(snap.engine_bytes@), snap.oracle_price->0, snap.now_slot, snap.funding_staleness_slots) && decision(snap)
            != Action::RefreshOracle,
{
}

} // verus!
