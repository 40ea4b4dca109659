//! What deposits, fees, losses, reserves and collections move, in plain numbers.

use vstd::prelude::*;
use crate::constants::MAX_PROTOCOL_FEE_ABS;
use crate::context::CtxState;
use crate::engine::books::{
    capital_within_total, fees_within, reserve_within, settle_losses_keeps_books,
};
use crate::engine::laws::{
    deposit_law, deposit_raises_equity, free_keeps_books, later_keeps_books, lemma_blank_is_blank, lemma_sweep_dust,
    reclaim_law,
};
use crate::engine::worth::{fee_is_paid_or_owed, worth};
use crate::int128::U128;
use crate::model::EngineState;
use crate::types::{zero_key, Account, ReserveMode, RiskParams};
use crate::wide_math::{min_of, pos_of};

verus! {

/// A deposit into a new account is its capital, all of it, and needs to be at least
/// the first deposit. A deposit into an account that exists raises its worth by the
/// amount. Either way the vault gains it.
pub proof fn deposit_is_credited(s: EngineState, idx: u16, amount: u128, now: u64)
    requires
        s.books(),
    ensures
        s.deposit(idx, amount, now) matches Ok(t) ==> {
            let b = t.accounts[idx as int];
            &&& t.vault.v == s.vault.v + amount
            &&& s.in_use(idx as int) ==> worth(b) == worth(s.accounts[idx as int]) + amount
            &&& !s.in_use(idx as int) ==> {
                &&& amount >= s.params.min_initial_deposit.v
                &&& b.capital.v == amount && b.pnl == 0 && b.fee_credits.v == 0
                &&& b.position_basis_q == 0 && b.reserved_pnl == 0
                &&& b.last_fee_slot == now
                &&& forall|k: int| 0 <= k < 32 ==> #[trigger] b.owner@[k] == 0
            }
            &&& t.current_slot == now
        },
{
    if let Ok(t) = s.deposit(idx, amount, now) {
        let i = idx as int;
        deposit_law(s, idx, amount, now);
        reveal(EngineState::deposit);
        if s.in_use(i) {
            deposit_raises_equity(s, idx, amount, now);
        } else {
            lemma_blank_is_blank(now);
            reveal(EngineState::settle_losses);
            reveal(EngineState::sweep_fee_debt);
            assert(t.accounts[i].owner@ == zero_key());
        }
        assert(t.current_slot == now) by {
            reveal(EngineState::settle_losses);
            reveal(EngineState::sweep_fee_debt);
            reveal(EngineState::set_pnl);
            reveal(EngineState::raise_pnl);
            reveal(EngineState::lower_pnl);
        }
    }
}

/// Losses are paid from capital: of capital and negative PnL, one is gone
/// afterwards, and their sum is the same.
pub proof fn losses_come_out_of_capital(s: EngineState, i: int)
    requires
        s.books(),
        s.in_use(i),
    ensures
        s.settle_losses(i) matches Ok(t) ==> {
            let a = s.accounts[i];
            let b = t.accounts[i];
            let sum = a.capital.v + a.pnl;
            &&& a.pnl >= 0 ==> t == s
            &&& a.pnl < 0 && sum >= 0 ==> b.capital.v == sum && b.pnl == 0
            &&& a.pnl < 0 && sum < 0 ==> b.capital.v == 0 && b.pnl == sum
            &&& s.c_tot.v - t.c_tot.v == a.capital.v - b.capital.v
            &&& t.insurance_fund == s.insurance_fund
        },
{
    settle_losses_keeps_books(s, i);
    reveal(EngineState::settle_losses);
    let a = s.accounts[i];
    if a.pnl < 0 {
        let pay = min_of(-(a.pnl as int), a.capital.v as int);
        if pay > 0 {
            if let Ok(u) = s.set_capital(i, (a.capital.v - pay) as u128) {
                let mode = ReserveMode::ImmediateReleaseResolvedOnly;
                lemma_set_pnl_moves_no_money(u, i, (a.pnl + pay) as i128, mode);
            }
        }
    }
}

proof fn lemma_set_pnl_moves_no_money(s: EngineState, i: int, pnl: i128, mode: ReserveMode)
    requires
        0 <= i < s.accounts.len(),
    ensures
        s.set_pnl_plain(i, pnl, mode) matches Ok(t) ==> t.c_tot == s.c_tot && t.insurance_fund == s.insurance_fund
            && t.accounts[i].pnl == pnl && t.accounts[i].capital == s.accounts[i].capital,
{
    reveal(EngineState::set_pnl);
    reveal(EngineState::raise_pnl);
    reveal(EngineState::lower_pnl);
}

/// The insurance fund pays a loss as far as it goes above its floor.
pub proof fn insurance_pays_down_to_its_floor(s: EngineState, loss: int)
    requires
        0 <= loss,
    ensures
        ({
                let paid = s.insurance_fund.balance.v - s.absorb_loss(loss).insurance_fund.balance.v;
                &&& 0 <= paid <= loss
                &&& paid < loss ==> s.absorb_loss(loss).insurance_fund.balance.v <= s.params.insurance_floor.v
                &&& paid > 0 ==> s.absorb_loss(loss).insurance_fund.balance.v >= s.params.insurance_floor.v
                &&& s.absorb_loss(loss).accounts == s.accounts
        }),
{
}

/// Fee debt is paid from capital into the insurance fund: of the two one is gone
/// afterwards.
pub proof fn fee_debt_comes_out_of_capital(s: EngineState, i: int)
    requires
        0 <= i < s.accounts.len(),
        i128::MIN < s.accounts[i].fee_credits.v <= 0,
    ensures
        s.sweep_fee_debt(i) matches Ok(t) ==> {
            let a = s.accounts[i];
            let b = t.accounts[i];
            let paid = a.capital.v - b.capital.v;
            &&& paid >= 0
            &&& b.fee_credits.v == a.fee_credits.v + paid
            &&& b.capital.v == 0 || b.fee_credits.v == 0
            &&& b.fee_credits.v <= 0
            &&& t.insurance_fund.balance.v == s.insurance_fund.balance.v + paid
            &&& t.c_tot.v == s.c_tot.v - paid
        },
{
    reveal(EngineState::sweep_fee_debt);
}

/// A one-off fee takes exactly itself from the worth of its account, unless it owes
/// more fees than can be counted.
pub proof fn one_off_fee_is_taken(s: EngineState, idx: u16, fee: u128, now: u64)
    requires
        s.books(),
    ensures
        s.charge_account(idx, fee, now) matches Ok(t) ==> {
            let a = s.accounts[idx as int];
            let b = t.accounts[idx as int];
            &&& a.fee_credits.v >= -(i128::MAX / 2) ==> worth(b) == worth(a) - fee
            &&& b.capital.v == if fee <= a.capital.v {
                a.capital.v - fee
            } else {
                0
            }
            &&& t.insurance_fund.balance.v - s.insurance_fund.balance.v == a.capital.v - b.capital.v
            &&& t.current_slot == now
        },
{
    if let Ok(t) = s.charge_account(idx, fee, now) {
        let i = idx as int;
        assert(fees_within(s.accounts[i], s.fee_limit()));
        fee_is_paid_or_owed(s.at_slot(now), i, fee);
        reveal(EngineState::charge_fee);
    }
}

/// The recurring fee is the rate for every slot since it was last charged, up to
/// now or to the resolution of the market, and no more than one charge may take.
pub proof fn recurring_fee_is_the_rate_per_slot(s: EngineState, idx: u16, now: u64, rate: u128)
    requires
        s.books(),
    ensures
        s.sync_account_fee(idx, now, rate) matches Ok(t) ==> {
            let a = s.accounts[idx as int];
            let b = t.accounts[idx as int];
            let until = if s.is_live() {
                now
            } else {
                s.resolved_slot
            };
            let due = rate * (until - a.last_fee_slot);
            let fee = if due > 1_000_000_000_000_000_000_000_000_000_000_000_000 {
                1_000_000_000_000_000_000_000_000_000_000_000_000
            } else {
                due
            };
            &&& b.last_fee_slot == until
            &&& a.last_fee_slot <= until
            &&& a.fee_credits.v >= -(i128::MAX / 2) ==> worth(b) == worth(a) - fee
        },
{
    if let Ok(t) = s.sync_account_fee(idx, now, rate) {
        let i = idx as int;
        assert(fees_within(s.accounts[i], s.fee_limit()));
        reveal(EngineState::sync_fee);
        let until = if s.is_live() {
            now
        } else {
            s.resolved_slot
        };
        let n = until - s.accounts[i].last_fee_slot;
        assert(0 <= rate * n) by (nonlinear_arith)
            requires
                0 <= rate,
                0 <= n,
            ;
        if n == 0 {
            assert(rate * n == 0) by (nonlinear_arith)
                requires
                    n == 0,
                ;
        }
        let fee = min_of(rate * n, MAX_PROTOCOL_FEE_ABS as int) as u128;
        let s1 = if s.is_live() {
            s.at_slot(now)
        } else {
            s
        };
        fee_is_paid_or_owed(s1, i, fee);
        reveal(EngineState::charge_fee);
    }
}

/// Fee debt can be paid from outside, up to what is owed: the debt falls, and vault
/// and insurance rise.
pub proof fn outside_payment_lowers_debt(s: EngineState, idx: u16, amount: u128, now: u64)
    ensures
        s.pay_fee_debt(idx, amount, now) matches Ok(t) ==> {
            let a = s.accounts[idx as int];
            &&& amount <= -(a.fee_credits.v as int) || (amount == 0 && a.fee_credits.v >= 0)
            &&& s.in_use(idx as int)
            &&& s.accounts.len() > idx ==> t.accounts[idx as int].fee_credits.v == a.fee_credits.v + amount
            &&& t.vault.v == s.vault.v + amount
            &&& t.insurance_fund.balance.v == s.insurance_fund.balance.v + amount
            &&& t.vault.v <= 10_000_000_000_000_000 || amount == 0
        },
{
}

/// A top-up goes to vault and insurance, and tells whether insurance is above its
/// floor.
pub proof fn top_up_goes_to_insurance(s: EngineState, amount: u128, now: u64)
    ensures
        s.top_up(amount, now) matches Ok(r) ==> {
            &&& r.0.vault.v == s.vault.v + amount <= 10_000_000_000_000_000
            &&& r.0.insurance_fund.balance.v == s.insurance_fund.balance.v + amount
            &&& r.1 == (s.insurance_fund.balance.v + amount > s.params.insurance_floor.v)
            &&& r.0.accounts == s.accounts
        },
{
}

/// Only dust is reclaimed: an account with neither a position nor PnL nor a reserve,
/// and with less capital than a first deposit. What it had goes to insurance. Such
/// an account is reclaimed wherever time does not go back.
pub proof fn only_dust_is_reclaimed(s: EngineState, idx: u16, now: u64)
    requires
        s.in_order(),
    ensures
        s.reclaim(idx, now).1 is Ok <==> {
            let a = s.accounts[idx as int];
            &&& s.is_live() && s.in_use(idx as int) && s.current_slot <= now
            &&& a.position_basis_q == 0 && a.pnl == 0 && a.reserved_pnl == 0
            &&& a.sched_present == 0 && a.pending_present == 0
            &&& a.capital.v < s.params.min_initial_deposit.v
        },
        s.reclaim(idx, now).1 is Ok ==> {
            let a = s.accounts[idx as int];
            let t = s.reclaim(idx, now).0;
            &&& t.insurance_fund.balance.v == s.insurance_fund.balance.v + a.capital.v
            &&& t.c_tot.v == s.c_tot.v - a.capital.v
            &&& t.vault == s.vault
            &&& !t.in_use(idx as int)
        },
{
    let i = idx as int;
    reclaim_law(s, idx, now);
    if s.in_use(i) {
        assert(fees_within(s.accounts[i], s.fee_limit()));
        capital_within_total(s.accounts, i);
        let s1 = s.at_slot(now);
        if s.is_live() && s.current_slot <= now {
            later_keeps_books(s, now);
            lemma_sweep_dust(s1, i);
            if let Ok(s2) = s1.sweep_dust(i) {
                free_keeps_books(s2, idx);
            }
        }
    }
}

/// A gain that is admitted goes into the reserve with the shorter horizon where what
/// the vault holds beyond capital and insurance covers it on top of all matured
/// profit, and with the longer one otherwise. Without a reserve before, all of it
/// starts to mature now.
pub proof fn gain_waits_for_its_horizon(s: EngineState, i: int, pnl: i128, h_min: u64, h_max: u64, c: CtxState)
    requires
        0 <= i < s.accounts.len(),
        s.is_live(),
        pos_of(pnl as int) > pos_of(s.accounts[i].pnl as int),
        s.accounts[i].reserved_pnl == 0,
        !c.sticky.contains(i as u16),
        0 < h_min,
        0 < h_max,
    ensures
        s.set_pnl(i, pnl, ReserveMode::UseAdmissionPair(h_min, h_max), c) matches Ok(r) ==> {
            let gain = pnl - pos_of(s.accounts[i].pnl as int);
            let spare = s.vault.v - s.c_tot.v - s.insurance_fund.balance.v;
            let b = r.0.accounts[i];
            &&& b.reserved_pnl == gain
            &&& b.sched_present != 0
            &&& b.sched_anchor_q == gain && b.sched_remaining_q == gain && b.sched_release_q == 0
            &&& b.sched_start_slot == s.current_slot
            &&& b.sched_horizon == if s.pnl_matured_pos_tot + gain <= spare {
                h_min
            } else {
                h_max
            }
            &&& r.0.pnl_matured_pos_tot == s.pnl_matured_pos_tot
            &&& r.0.pnl_pos_tot == s.pnl_pos_tot + gain
        },
{
    reveal(EngineState::set_pnl);
    reveal(EngineState::raise_pnl);
}

/// An account that was given the longer horizon in an instruction keeps it there.
pub proof fn longer_horizon_sticks(s: EngineState, c: CtxState, i: int, gain: int, h_min: u64, h_max: u64)
    requires
        0 <= i <= u16::MAX,
    ensures
        s.admit_fresh(c, i, gain, h_min, h_max) matches Ok(r) ==> {
            &&& r.1 == h_min || r.1 == h_max
            &&& c.sticky.contains(i as u16) ==> r.1 == h_max
            &&& r.1 == h_max ==> r.0.sticky.contains(i as u16)
            &&& h_min != h_max && !c.sticky.contains(i as u16) ==> (r.1 == h_min <==> s.c_tot.v + s.insurance_fund.balance.v
                    + s.pnl_matured_pos_tot + gain <= s.vault.v)
        },
{
    if !c.sticky.contains(i as u16) {
        let p = c.sticky.push(i as u16);
        assert(p[c.sticky.len() as int] == i as u16);
    }
}

/// A loss takes the reserve first, and what has matured only then.
pub proof fn loss_takes_the_reserve_first(s: EngineState, i: int, pnl: i128)
    requires
        s.books(),
        s.in_use(i),
        s.is_live(),
        pos_of(pnl as int) <= pos_of(s.accounts[i].pnl as int),
    ensures
        s.lower_pnl(i, pnl) matches Ok(t) ==> {
            let a = s.accounts[i];
            let b = t.accounts[i];
            let loss = pos_of(a.pnl as int) - pos_of(pnl as int);
            let taken = if loss <= a.reserved_pnl {
                loss
            } else {
                a.reserved_pnl as int
            };
            &&& b.pnl == pnl
            &&& b.reserved_pnl == a.reserved_pnl - taken
            &&& t.pnl_matured_pos_tot == s.pnl_matured_pos_tot - (loss - taken)
            &&& t.pnl_pos_tot == s.pnl_pos_tot - loss
            &&& b.capital == a.capital
        },
{
    reveal(EngineState::lower_pnl);
    assert(reserve_within(s.accounts[i]));
}

/// Of the reserve the newest goes first: the pending part before the scheduled one.
pub proof fn newest_reserve_is_lost_first(s: EngineState, i: int, loss: u128)
    requires
        0 <= i < s.accounts.len(),
    ensures
        s.lose_reserve(i, loss) matches Ok(t) ==> {
            let a = s.accounts[i];
            let b = t.accounts[i];
            let pending = if a.pending_present != 0 {
                a.pending_remaining_q as int
            } else {
                0
            };
            &&& b.reserved_pnl == a.reserved_pnl - loss
            &&& loss < pending ==> b.pending_remaining_q == pending - loss && b.sched_remaining_q == a.sched_remaining_q
            &&& loss >= pending ==> b.pending_remaining_q == 0 && b.pending_present == 0 && b.sched_remaining_q
                == a.sched_remaining_q - (loss - pending)
        },
{
}

/// The scheduled reserve matures evenly over its horizon: what has matured in all by
/// now is the share of the horizon that has passed, rounded down, and all of it at
/// the end. What matures leaves the reserve and counts as matured.
pub proof fn reserve_matures_evenly(s: EngineState, i: int)
    requires
        0 <= i < s.accounts.len(),
        s.accounts[i].reserved_pnl != 0,
        s.accounts[i].sched_present != 0,
    ensures
        s.advance_warmup(i) matches Ok(t) ==> {
            let a = s.accounts[i];
            let b = t.accounts[i];
            let passed = s.current_slot - a.sched_start_slot;
            let by_now = if passed >= a.sched_horizon {
                a.sched_anchor_q as int
            } else {
                a.sched_anchor_q * passed / (a.sched_horizon as int)
            };
            let due = by_now - a.sched_release_q;
            let x = a.reserved_pnl - b.reserved_pnl;
            &&& passed >= 0
            &&& due >= 0
            &&& x == if due <= a.sched_remaining_q {
                due
            } else {
                a.sched_remaining_q as int
            }
            &&& t.pnl_matured_pos_tot == s.pnl_matured_pos_tot + x
            &&& b.pnl == a.pnl
            &&& x < a.sched_remaining_q ==> b.sched_remaining_q == a.sched_remaining_q - x && b.sched_release_q == by_now
                && b.sched_start_slot == a.sched_start_slot && b.sched_horizon == a.sched_horizon && b.sched_anchor_q
                == a.sched_anchor_q
            &&& x == a.sched_remaining_q && a.pending_present != 0 ==> b.sched_remaining_q == a.pending_remaining_q
                && b.sched_anchor_q == a.pending_remaining_q && b.sched_start_slot == s.current_slot && b.sched_horizon
                == a.pending_horizon && b.sched_release_q == 0 && b.pending_present == 0
        },
{
    reveal(EngineState::advance_warmup);
}

/// The whole reserve matures at once where the vault covers it beyond capital,
/// insurance and all matured profit, and not at all otherwise.
pub proof fn covered_reserve_matures_at_once(s: EngineState, i: int)
    requires
        0 <= i < s.accounts.len(),
        s.is_live(),
    ensures
        s.admit_outstanding(i) matches Ok(t) ==> {
            let a = s.accounts[i];
            let covered = s.c_tot.v + s.insurance_fund.balance.v + s.pnl_matured_pos_tot + a.reserved_pnl <= s.vault.v;
            &&& a.reserved_pnl > 0 && covered ==> t.accounts[i].reserved_pnl == 0 && t.pnl_matured_pos_tot
                == s.pnl_matured_pos_tot + a.reserved_pnl && t.accounts[i].sched_present == 0 && t.accounts[i].pending_present == 0
            &&& a.reserved_pnl == 0 || !covered ==> t == s
            &&& t.accounts[i].pnl == a.pnl
        },
{
}

/// At the end of an instruction matured profit of an account without a position
/// becomes capital, one for one, where the vault covers all matured profit; else
/// none does. Then fee debt is paid.
pub proof fn covered_profit_becomes_capital(s: EngineState, i: int, whole: bool)
    requires
        s.books(),
        s.in_use(i),
        s.is_live(),
    ensures
        s.is_whole() <==> 0 < s.pnl_matured_pos_tot && s.c_tot.v + s.insurance_fund.balance.v + s.pnl_matured_pos_tot <= s.vault.v,
        s.finish_account(i, whole) matches Ok(t) ==> {
            let a = s.accounts[i];
            let b = t.accounts[i];
            let moved = a.pnl - b.pnl;
            &&& worth(b) == worth(a)
            &&& moved == if whole && a.position_basis_q == 0 && a.pnl > 0 {
                a.pnl - a.reserved_pnl
            } else {
                0
            }
            &&& b.capital.v == 0 || b.fee_credits.v == 0
        },
{
    reveal(EngineState::finish_account);
    reveal(EngineState::consume_released);
    reveal(EngineState::sweep_fee_debt);
    assert(fees_within(s.accounts[i], s.fee_limit()));
    assert(reserve_within(s.accounts[i]));
}

/// What is reserved goes into a bucket of its own. The first goes into the scheduled
/// bucket, which starts now; more of the same slot and horizon joins it there as long
/// as nothing was released; anything else waits in the pending bucket, whose horizon
/// only grows. A pending bucket that is alone is scheduled first.
pub proof fn reserve_goes_to_a_bucket(a: Account, p: RiskParams, add: u128, now: u64, h: u64)
    ensures
        a.reserve_appended(p, add, now, h) matches Ok(b) ==> {
            let none = a.sched_present == 0 && a.pending_present == 0;
            let alone = a.sched_present == 0 && a.pending_present != 0;
            let both = a.sched_present != 0 && a.pending_present != 0;
            let joins = a.sched_present != 0 && a.pending_present == 0 && a.sched_start_slot == now && a.sched_horizon == h
                && a.sched_release_q == 0;
            let waits = a.sched_present != 0 && a.pending_present == 0 && !joins;
            &&& b.reserved_pnl == a.reserved_pnl + add
            &&& b.capital == a.capital && b.pnl == a.pnl && b.fee_credits == a.fee_credits
            &&& b.position_basis_q == a.position_basis_q
            &&& b.sched_present != 0
            &&& none ==> b.sched_remaining_q == add && b.sched_anchor_q == add && b.sched_start_slot == now && b.sched_horizon == h
                && b.sched_release_q == 0 && b.pending_present == 0
            &&& joins ==> b.sched_remaining_q == a.sched_remaining_q + add && b.sched_anchor_q == a.sched_anchor_q + add
                && b.sched_start_slot == now && b.sched_horizon == h && b.sched_release_q == 0 && b.pending_present == 0
            &&& waits || both ==> b.sched_remaining_q == a.sched_remaining_q && b.sched_anchor_q == a.sched_anchor_q
                && b.sched_start_slot == a.sched_start_slot && b.sched_horizon == a.sched_horizon && b.sched_release_q
                == a.sched_release_q && b.pending_present != 0
            &&& waits ==> b.pending_remaining_q == add && b.pending_horizon == h && b.pending_created_slot == now
            &&& both ==> b.pending_remaining_q == a.pending_remaining_q + add && b.pending_created_slot == a.pending_created_slot
            &&& both ==> b.pending_horizon == if a.pending_horizon < h {
                h
            } else {
                a.pending_horizon
            }
            &&& alone ==> b.sched_start_slot == now && b.sched_horizon == a.pending_horizon && b.sched_release_q == 0
            &&& alone && a.pending_horizon == h ==> b.sched_remaining_q == a.pending_remaining_q + add && b.sched_anchor_q
                == a.pending_remaining_q + add && b.pending_present == 0
            &&& alone && a.pending_horizon != h ==> b.sched_remaining_q == a.pending_remaining_q && b.sched_anchor_q
                == a.pending_remaining_q && b.pending_present != 0 && b.pending_remaining_q == add && b.pending_horizon == h
                && b.pending_created_slot == now
        },
{
}

/// A deposit pays the losses of the account, and what a flat account owes in fees
/// goes to the insurance fund, as far as its capital goes. An account with a position
/// keeps its fee debt.
pub proof fn deposit_pays_what_is_owed(s: EngineState, idx: u16, amount: u128, now: u64)
    requires
        s.books(),
        s.in_use(idx as int),
    ensures
        s.deposit(idx, amount, now) matches Ok(t) ==> {
            let a = s.accounts[idx as int];
            let b = t.accounts[idx as int];
            let sum = a.capital.v + amount + a.pnl;
            let short = a.pnl < 0 && sum < 0;
            let had = if a.pnl >= 0 {
                a.capital.v + amount
            } else if sum >= 0 {
                sum
            } else {
                0
            };
            let debt = if a.fee_credits.v < 0 {
                -(a.fee_credits.v as int)
            } else {
                0
            };
            let paid = if a.position_basis_q != 0 || short {
                0
            } else if debt <= had {
                debt
            } else {
                had
            };
            &&& b.position_basis_q == a.position_basis_q && b.owner == a.owner
            &&& b.pnl == if a.pnl >= 0 {
                a.pnl as int
            } else if short {
                sum
            } else {
                0
            }
            &&& b.capital.v == had - paid
            &&& b.fee_credits.v == a.fee_credits.v + paid
            &&& t.insurance_fund.balance.v == s.insurance_fund.balance.v + paid
        },
{
    if let Ok(t) = s.deposit(idx, amount, now) {
        let i = idx as int;
        reveal(EngineState::deposit);
        assert(fees_within(s.accounts[i], s.fee_limit()));
        let s2 = EngineState { current_slot: now, vault: U128 { v: (s.vault.v + amount) as u128 }, ..s };
        let cap = (s.accounts[i].capital.v + amount) as u128;
        let s3 = s2.set_capital(i, cap)->Ok_0;
        let s4 = s3.settle_losses(i)->Ok_0;
        assert({
                let b = s4.accounts[i];
                let a = s3.accounts[i];
                &&& a.pnl >= 0 ==> s4 == s3
                &&& a.pnl < 0 && a.capital.v + a.pnl >= 0 ==> b.capital.v == a.capital.v + a.pnl && b.pnl == 0
                &&& a.pnl < 0 && a.capital.v + a.pnl < 0 ==> b.capital.v == 0 && b.pnl == a.capital.v + a.pnl
                &&& b.fee_credits == a.fee_credits && b.position_basis_q == a.position_basis_q && b.owner == a.owner
                &&& s4.insurance_fund == s3.insurance_fund
                &&& s4.accounts.len() == s3.accounts.len()
        }) by {
            lemma_losses_paid(s3, i);
        }
        assert(s2.set_capital(i, cap) is Ok && s3.settle_losses(i) is Ok);
        if s4.accounts[i].position_basis_q == 0 && s4.accounts[i].pnl >= 0 {
            assert(t == s4.sweep_fee_debt(i)->Ok_0);
            fee_debt_comes_out_of_capital(s4, i);
            reveal(EngineState::sweep_fee_debt);
            assert(t.accounts[i].pnl == s4.accounts[i].pnl);
            assert(t.accounts[i].position_basis_q == s4.accounts[i].position_basis_q && t.accounts[i].owner == s4.accounts[i].owner);
        } else {
            assert(t == s4);
        }
    }
}

proof fn lemma_losses_paid(s: EngineState, i: int)
    requires
        0 <= i < s.accounts.len(),
    ensures
        s.settle_losses(i) matches Ok(t) ==> {
            let a = s.accounts[i];
            let b = t.accounts[i];
            &&& a.pnl >= 0 ==> t == s
            &&& a.pnl < 0 && a.capital.v + a.pnl >= 0 ==> b.capital.v == a.capital.v + a.pnl && b.pnl == 0
            &&& a.pnl < 0 && a.capital.v + a.pnl < 0 ==> b.capital.v == 0 && b.pnl == a.capital.v + a.pnl
            &&& b.fee_credits == a.fee_credits && b.position_basis_q == a.position_basis_q && b.owner == a.owner
            &&& t.accounts.len() == s.accounts.len()
            &&& t.insurance_fund == s.insurance_fund
        },
{
    reveal(EngineState::settle_losses);
    reveal(EngineState::set_pnl);
    reveal(EngineState::raise_pnl);
    reveal(EngineState::lower_pnl);
}

/// A first deposit is taken in a live market where time does not go back, the vault
/// has room, there is a slot for it, and it is not too small.
pub proof fn first_deposit_is_taken(s: EngineState, idx: u16, amount: u128, now: u64)
    requires
        s.books(),
        s.conserved(),
        s.oi_balanced(),
        s.is_live(),
        s.current_slot <= now && s.last_market_slot <= now,
        s.vault.v + amount <= 10_000_000_000_000_000,
        !s.in_use(idx as int),
        s.materialize_at(idx, now) is Ok,
    ensures
        s.deposit(idx, amount, now) is Ok <==> amount >= s.params.min_initial_deposit.v,
{
    reveal(EngineState::deposit);
    lemma_blank_is_blank(now);
    reveal(EngineState::settle_losses);
    reveal(EngineState::sweep_fee_debt);
}

/// A fee that capital does not cover is owed, as far as fee credits can go down:
/// nowhere while they are positive, and otherwise to the lowest number but one.
pub proof fn debt_has_a_limit(s: EngineState, i: int, fee: u128)
    requires
        0 <= i < s.accounts.len(),
    ensures
        s.charge_fee(i, fee) matches Ok((t, split)) ==> {
            let a = s.accounts[i];
            let credits = a.fee_credits.v as int;
            let paid = if fee <= a.capital.v {
                fee as int
            } else {
                a.capital.v as int
            };
            let room = if credits > 0 || credits < -i128::MAX {
                0
            } else {
                credits + i128::MAX
            };
            let owed = if fee - paid <= room {
                fee - paid
            } else {
                room
            };
            &&& split.paid == paid
            &&& split.impact == paid + owed
            &&& split.dropped == fee - paid - owed
            &&& t.accounts[i].fee_credits.v == credits - owed
            &&& t.accounts[i].capital.v == a.capital.v - paid
            &&& fee <= 1_000_000_000_000_000_000_000_000_000_000_000_000
        },
{
    reveal(EngineState::charge_fee);
}

} // verus!
