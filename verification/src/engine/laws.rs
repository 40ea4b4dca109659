//! What holds across the operations of the engine. Every operation that succeeds
//! keeps the books, changes only the accounts it names, and moves the vault by
//! exactly what goes in or out.

use vstd::prelude::*;
use crate::constants::{
    ACCOUNTS_PER_CRANK, ADL_ONE, MAX_ACCOUNTS, MAX_TOUCHED_PER_INSTRUCTION, MAX_VAULT_TVL,
    POS_SCALE,
};
use crate::context::{first_touch, touch_adds_one, CtxState};
use crate::engine::books::{
    accrue_keeps_books, adl_keeps_books, capital_of, capital_within_total, charge_keeps_books,
    consume_released_keeps_books, counts_long, counts_negative, counts_short, end_keeps_books,
    fees_within, finish_touched_keeps_books, lemma_total_update, named, position_keeps_books,
    profit_of, reserve_of, reserve_within, resolve_flat_keeps_books, set_capital_keeps_books,
    set_pnl_keeps_books, set_pnl_plain_keeps_books, settle_losses_keeps_books, swap_keeps_books,
    sweep_keeps_books, sync_fee_keeps_books, total, touch_keeps_books, touched_in_use, vacant,
};
use crate::engine::free_list::{
    freeing_keeps_slots, fresh_slots_are_in_order, slots_in_order, taking_keeps_slots,
};
use crate::engine::liquidation::{Candidate, CrankRun};
use crate::engine::positions::index_pnl_or_overflow;
use crate::engine::trade::{exact, trade_pnl_of};
use crate::model::EngineState;
use crate::types::{
    blank, blank_is_unique, side_of, zero_key, Account, LiquidationPolicy, ReserveMode,
    ResolveMode, ResolvedCloseResult, RiskError, RiskParams,
};
use crate::int128::{I128, U128};
use crate::wide_math::{I256, abs_of, min_of, muldiv, pos_of};

verus! {

impl EngineState {
    /// From `self` to `t` only accounts of `who` change, and no parameter does.
    pub open spec fn others_same(self, t: EngineState, who: Set<int>) -> bool {
        &&& t.params == self.params
        &&& t.accounts.len() == self.accounts.len()
        &&& forall|j: int|
        0 <= j < self.accounts.len() && !who.contains(j) ==> #[trigger] t.accounts[j] == self.accounts[j]
    }
}

proof fn lemma_total_zero(acc: Seq<Account>, f: spec_fn(Account) -> int)
    requires
        forall|i: int| 0 <= i < acc.len() ==> f(#[trigger] acc[i]) == 0,
    ensures
        total(acc, f) == 0,
    decreases acc.len(),
{
    if acc.len() > 0 {
        let rest = acc.drop_last();
        assert forall|i: int| 0 <= i < rest.len() implies f(#[trigger] rest[i]) == 0 by {
            assert(f(acc[i]) == 0);
        }
        lemma_total_zero(rest, f);
        assert(f(acc[acc.len() - 1]) == 0);
    }
}

/// A new market's books are in order.
pub proof fn fresh_market_has_books(s: EngineState, p: RiskParams, slot: u64, price: u64)
    requires
        s.is_fresh(p, slot, price),
    ensures
        s.books(),
        s.conserved(),
        s.oi_balanced(),
{
    assert forall|i: int| 0 <= i < MAX_ACCOUNTS implies vacant(#[trigger] s.accounts[i]) by {
        assert(s.accounts[i].is_blank(0));
    }
    lemma_total_zero(s.accounts, capital_of());
    lemma_total_zero(s.accounts, profit_of());
    lemma_total_zero(s.accounts, reserve_of());
    lemma_total_zero(s.accounts, counts_negative());
    lemma_total_zero(s.accounts, counts_long());
    lemma_total_zero(s.accounts, counts_short());
    assert forall|i: int| 0 <= i < MAX_ACCOUNTS implies reserve_within(#[trigger] s.accounts[i]) by {
        assert(vacant(s.accounts[i]));
    }
    assert forall|i: int| 0 <= i < MAX_ACCOUNTS implies fees_within(#[trigger] s.accounts[i], s.fee_limit()) by {
        assert(s.accounts[i].is_blank(0));
    }
    fresh_slots_are_in_order(s);
}

/// There is a blank account.
pub proof fn lemma_blank_is_blank(fee_slot: u64)
    ensures
        blank(fee_slot).is_blank(fee_slot),
{
    let z: [u8; 32] = [
        0, 0, 0, 0, 0, 0, 0, 0,
        0, 0, 0, 0, 0, 0, 0, 0,
        0, 0, 0, 0, 0, 0, 0, 0,
        0, 0, 0, 0, 0, 0, 0, 0,
    ];
    assert(z@ =~= zero_key());
    let a = Account {
        capital: U128 { v: 0 },
        kind: Account::KIND_USER,
        pnl: 0,
        reserved_pnl: 0,
        position_basis_q: 0,
        adl_a_basis: ADL_ONE,
        adl_k_snap: 0,
        f_snap: 0,
        adl_epoch_snap: 0,
        matcher_program: z,
        matcher_context: z,
        owner: z,
        fee_credits: I128 { v: 0 },
        last_fee_slot: fee_slot,
        sched_present: 0,
        sched_remaining_q: 0,
        sched_anchor_q: 0,
        sched_start_slot: 0,
        sched_horizon: 0,
        sched_release_q: 0,
        pending_present: 0,
        pending_remaining_q: 0,
        pending_horizon: 0,
        pending_created_slot: 0,
    };
    assert(a.is_blank(fee_slot));
    blank_is_unique(a, fee_slot);
}

/// Totals do not change where a vacant account is replaced by a vacant one.
proof fn lemma_vacant_swap(s: EngineState, t: EngineState, i: int)
    requires
        s.books(),
        0 <= i < MAX_ACCOUNTS,
        vacant(s.accounts[i]),
        vacant(t.accounts[i]),
        t.accounts == s.accounts.update(i, t.accounts[i]),
        t.slots_ok(),
        forall|j: int| 0 <= j < MAX_ACCOUNTS && j != i ==> t.used[j] == s.used[j],
        t.market_mode == s.market_mode,
        t.params == s.params,
        s.fee_limit() <= t.fee_limit(),
        fees_within(t.accounts[i], t.fee_limit()),
        t.c_tot == s.c_tot,
        t.pnl_pos_tot == s.pnl_pos_tot,
        t.pnl_matured_pos_tot == s.pnl_matured_pos_tot,
        t.neg_pnl_account_count == s.neg_pnl_account_count,
        t.stored_pos_count_long == s.stored_pos_count_long,
        t.stored_pos_count_short == s.stored_pos_count_short,
    ensures
        t.books(),
{
    let a = t.accounts[i];
    lemma_total_update(s.accounts, i, a, capital_of());
    lemma_total_update(s.accounts, i, a, profit_of());
    lemma_total_update(s.accounts, i, a, reserve_of());
    lemma_total_update(s.accounts, i, a, counts_negative());
    lemma_total_update(s.accounts, i, a, counts_long());
    lemma_total_update(s.accounts, i, a, counts_short());
    reveal(slots_in_order);
    assert forall|j: int| 0 <= j < MAX_ACCOUNTS && !t.used[j] implies vacant(#[trigger] t.accounts[j]) by {
        if j != i {
            assert(vacant(s.accounts[j]));
        }
    }
    assert forall|j: int| 0 <= j < MAX_ACCOUNTS implies fees_within(#[trigger] t.accounts[j], t.fee_limit()) by {
        assert(fees_within(s.accounts[j], s.fee_limit()));
    }
    if t.is_live() {
        assert forall|j: int| 0 <= j < MAX_ACCOUNTS implies reserve_within(#[trigger] t.accounts[j]) by {
            if j != i {
                assert(reserve_within(s.accounts[j]));
            }
        }
    }
}

/// Moving on in time keeps the books.
pub proof fn later_keeps_books(s: EngineState, now: u64)
    requires
        s.books(),
        s.is_live(),
        s.current_slot <= now,
    ensures
        s.at_slot(now).books(),
{
    let t = s.at_slot(now);
    assert forall|j: int| 0 <= j < MAX_ACCOUNTS implies fees_within(#[trigger] t.accounts[j], t.fee_limit()) by {
        assert(fees_within(s.accounts[j], s.fee_limit()));
    }
}

/// Taking a free slot keeps the books.
pub proof fn materialize_keeps_books(s: EngineState, idx: u16, anchor: u64)
    requires
        s.books(),
        anchor <= s.fee_limit(),
    ensures
        s.materialize_at(idx, anchor) matches Ok(t) ==> {
            &&& t.books()
            &&& s.others_same(t, set![idx as int])
            &&& t.in_use(idx as int)
            &&& t.accounts[idx as int].is_blank(anchor)
            &&& t.vault == s.vault
            &&& t.used == s.used.update(idx as int, true)
            &&& idx < MAX_ACCOUNTS
        },
{
    if let Ok(t) = s.materialize_at(idx, anchor) {
        lemma_blank_is_blank(anchor);
        taking_keeps_slots(s, idx, anchor);
        assert(vacant(s.accounts[idx as int]));
        lemma_vacant_swap(s, t, idx as int);
    }
}

/// Freeing a slot keeps the books, and succeeds wherever nothing is left in it.
pub proof fn free_keeps_books(s: EngineState, idx: u16)
    requires
        s.books(),
    ensures
        ({
                let t = s.free_slot(idx).0;
                &&& t.books()
                &&& s.others_same(t, set![idx as int])
                &&& t.vault == s.vault
                &&& t.c_tot == s.c_tot
                &&& t.insurance_fund == s.insurance_fund
                &&& s.free_slot(idx).1 is Ok ==> !t.in_use(idx as int) && t.accounts[idx as int].is_blank(0)
                &&& idx < MAX_ACCOUNTS && s.freeable(idx as int) ==> s.free_slot(idx).1 is Ok
        }),
{
    let t = s.free_slot(idx).0;
    freeing_keeps_slots(s, idx);
    if idx < MAX_ACCOUNTS && s.freeable(idx as int) {
        lemma_blank_is_blank(0);
        lemma_vacant_swap(s, t, idx as int);
    }
}

/// The common start of a live instruction keeps the books and touches its account.
pub proof fn lemma_start(s: EngineState, i: int, price: u64, now: u64, rate: i128, h_min: u64, h_max: u64)
    requires
        s.books(),
    ensures
        s.start_live(i, price, now, rate, h_min, h_max) matches Ok(r) ==> {
            &&& s.keeps(r.0, set![i])
            &&& r.1.touched == seq![i as u16]
            &&& 0 <= i < MAX_ACCOUNTS
            &&& s.used[i]
            &&& touched_in_use(r.0, r.1)
            &&& named(r.1.touched) == set![i]
        },
{
    accrue_keeps_books(s, now, price, rate);
    if let Ok(r) = s.start_live(i, price, now, rate, h_min, h_max) {
        let s1 = s.accrue(now, price, rate)->Ok_0;
        let c = CtxState::fresh(h_min, h_max);
        touch_keeps_books(s1, i, c);
        reveal(EngineState::touch);
        first_touch(c, i as u16);
        lemma_named_one(i);
    }
}

proof fn lemma_named_one(i: int)
    requires
        0 <= i < MAX_ACCOUNTS,
    ensures
        named(seq![i as u16]) == set![i],
{
    let l = seq![i as u16];
    assert forall|j: int| named(l).contains(j) == set![i].contains(j) by {
        if j == i {
            assert(l[0] == i as u16);
            assert(l.contains(i as u16));
        }
    }
    assert(named(l) =~= set![i]);
}

/// A deposit adds its amount to the vault, changes no other account, and keeps
/// the books.
pub proof fn deposit_law(s: EngineState, idx: u16, amount: u128, now: u64)
    requires
        s.books(),
    ensures
        s.deposit(idx, amount, now) matches Ok(t) ==> {
            &&& t.books()
            &&& t.conserved()
            &&& s.others_same(t, set![idx as int])
            &&& t.vault.v == s.vault.v + amount
            &&& t.vault.v <= MAX_VAULT_TVL
            &&& t.used == s.used.update(idx as int, true)
            &&& idx < MAX_ACCOUNTS
        },
{
    reveal(EngineState::deposit);
    if let Ok(t) = s.deposit(idx, amount, now) {
        let i = idx as int;
        let s0 = s.at_slot(now);
        later_keeps_books(s, now);
        materialize_keeps_books(s0, idx, now);
        let s1 = if s.in_use(i) {
            s0
        } else {
            s0.materialize_at(idx, now)->Ok_0
        };
        assert(s.in_use(i) || s1 == s.materialize_at(idx, now)->Ok_0.at_slot(now));
        let s2 = EngineState { current_slot: now, vault: U128 { v: (s.vault.v + amount) as u128 }, ..s1 };
        let cap = (s2.accounts[i].capital.v + amount) as u128;
        set_capital_keeps_books(s2, i, cap);
        let s3 = s2.set_capital(i, cap)->Ok_0;
        settle_losses_keeps_books(s3, i);
        let s4 = s3.settle_losses(i)->Ok_0;
        sweep_keeps_books(s4, i);
        assert(t.used =~= s.used.update(i, true));
    }
}

/// A deposit into an account that exists raises what the account is worth, capital
/// and PnL less fee debt, by exactly its amount, and leaves the account its
/// owner's.
pub proof fn deposit_raises_equity(s: EngineState, idx: u16, amount: u128, now: u64)
    requires
        s.books(),
        s.in_use(idx as int),
    ensures
        s.deposit(idx, amount, now) matches Ok(t) ==> {
            let a = s.accounts[idx as int];
            let b = t.accounts[idx as int];
            &&& b.equity_maint() == a.equity_maint() + amount
            &&& b.owner == a.owner
        },
{
    reveal(EngineState::deposit);
    if let Ok(t) = s.deposit(idx, amount, now) {
        let i = idx as int;
        let s2 = EngineState { current_slot: now, vault: U128 { v: (s.vault.v + amount) as u128 }, ..s };
        let cap = (s2.accounts[i].capital.v + amount) as u128;
        set_capital_keeps_books(s2, i, cap);
        let s3 = s2.set_capital(i, cap)->Ok_0;
        settle_losses_keeps_books(s3, i);
        let s4 = s3.settle_losses(i)->Ok_0;
        sweep_keeps_books(s4, i);
        capital_within_total(s4.accounts, i);
        assert(s4.accounts[i].equity_maint() == s.accounts[i].equity_maint() + amount);
        assert(s4.accounts[i].capital.v <= t.vault.v);
        reveal(EngineState::sweep_fee_debt);
    }
}

/// A withdrawal takes its amount from the vault, changes no other account, and
/// keeps the books.
pub proof fn withdraw_law(
    s: EngineState,
    idx: u16,
    amount: u128,
    price: u64,
    now: u64,
    rate: i128,
    h_min: u64,
    h_max: u64,
)
    requires
        s.books(),
    ensures
        s.withdraw(idx, amount, price, now, rate, h_min, h_max) matches Ok(t) ==> {
            &&& t.books()
            &&& t.conserved()
            &&& s.others_same(t, set![idx as int])
            &&& t.vault.v == s.vault.v - amount
        },
{
    reveal(EngineState::withdraw);
    if let Ok(t) = s.withdraw(idx, amount, price, now, rate, h_min, h_max) {
        let i = idx as int;
        lemma_start(s, i, price, now, rate, h_min, h_max);
        let r = s.start_live(i, price, now, rate, h_min, h_max)->Ok_0;
        finish_touched_keeps_books(r.0, r.1);
        let s1 = r.0.finish_touched(r.1)->Ok_0;
        let left = (s1.accounts[i].capital.v - amount) as u128;
        set_capital_keeps_books(s1, i, left);
        let s2 = s1.set_capital(i, left)->Ok_0;
        let s3 = EngineState { vault: U128 { v: (s2.vault.v - amount) as u128 }, ..s2 };
        end_keeps_books(s3, r.1);
    }
}

/// Settling an account changes neither the vault nor any other account, and
/// keeps the books.
pub proof fn settle_account_law(
    s: EngineState,
    idx: u16,
    price: u64,
    now: u64,
    rate: i128,
    h_min: u64,
    h_max: u64,
)
    requires
        s.books(),
    ensures
        s.settle_account(idx, price, now, rate, h_min, h_max) matches Ok(t) ==> s.keeps(t, set![idx as int])
            && t.conserved(),
{
    reveal(EngineState::settle_account);
    if let Ok(t) = s.settle_account(idx, price, now, rate, h_min, h_max) {
        let i = idx as int;
        lemma_start(s, i, price, now, rate, h_min, h_max);
        let r = s.start_live(i, price, now, rate, h_min, h_max)->Ok_0;
        finish_touched_keeps_books(r.0, r.1);
        let s1 = r.0.finish_touched(r.1)->Ok_0;
        end_keeps_books(s1, r.1);
    }
}

/// A conversion of profit changes neither the vault nor any other account, and
/// keeps the books.
pub proof fn convert_law(
    s: EngineState,
    idx: u16,
    x: u128,
    price: u64,
    now: u64,
    rate: i128,
    h_min: u64,
    h_max: u64,
)
    requires
        s.books(),
    ensures
        s.convert_released(idx, x, price, now, rate, h_min, h_max) matches Ok(t) ==> s.keeps(t, set![idx as int])
            && t.conserved(),
{
    reveal(EngineState::convert_released);
    if let Ok(t) = s.convert_released(idx, x, price, now, rate, h_min, h_max) {
        let i = idx as int;
        lemma_start(s, i, price, now, rate, h_min, h_max);
        let r = s.start_live(i, price, now, rate, h_min, h_max)->Ok_0;
        let s1 = r.0;
        let h = s1.haircut();
        let y = muldiv(x as int, h.0, h.1);
        consume_released_keeps_books(s1, i, x);
        let s2 = s1.consume_released(i, x)->Ok_0;
        let cap = (s2.accounts[i].capital.v + y) as u128;
        set_capital_keeps_books(s2, i, cap);
        let s3 = s2.set_capital(i, cap)->Ok_0;
        sweep_keeps_books(s3, i);
        let s4 = s3.sweep_fee_debt(i)->Ok_0;
        finish_touched_keeps_books(s4, r.1);
        let s5 = s4.finish_touched(r.1)->Ok_0;
        end_keeps_books(s5, r.1);
    }
}

/// Closing an account pays out of the vault what it returns, blanks the account
/// and frees its slot, changes no other account, and keeps the books.
pub proof fn close_account_law(
    s: EngineState,
    idx: u16,
    now: u64,
    price: u64,
    rate: i128,
    h_min: u64,
    h_max: u64,
)
    requires
        s.books(),
    ensures
        s.close_account(idx, now, price, rate, h_min, h_max) matches Ok(r) ==> {
            &&& r.0.books()
            &&& r.0.conserved()
            &&& s.others_same(r.0, set![idx as int])
            &&& r.0.vault.v == s.vault.v - r.1
            &&& !r.0.in_use(idx as int)
            &&& r.0.accounts[idx as int].is_blank(0)
        },
{
    reveal(EngineState::close_account);
    if let Ok(r) = s.close_account(idx, now, price, rate, h_min, h_max) {
        let i = idx as int;
        lemma_start(s, i, price, now, rate, h_min, h_max);
        let m = s.start_live(i, price, now, rate, h_min, h_max)->Ok_0;
        finish_touched_keeps_books(m.0, m.1);
        let s1 = m.0.finish_touched(m.1)->Ok_0;
        let cap = s1.accounts[i].capital.v;
        let s1v = EngineState { vault: U128 { v: (s1.vault.v - cap) as u128 }, ..s1 };
        assert(s1v.books());
        set_capital_keeps_books(s1v, i, 0);
        let p = s1.pay_out(i)->Ok_0;
        end_keeps_books(p.0, m.1);
        let t = p.0.schedule_resets(m.1)->Ok_0;
        end_keeps_books(t.0, t.1);
        let s3 = t.0.finalize_resets(t.1)->Ok_0;
        free_keeps_books(s3, idx);
    }
}

/// Giving up dust keeps the books, and capital and insurance together.
pub proof fn lemma_sweep_dust(s: EngineState, i: int)
    requires
        s.books(),
        s.in_use(i),
    ensures
        s.empty_dust(i) matches Ok(t) ==> s.sweep_dust(i) == Ok::<EngineState, RiskError>(t),
        s.sweep_dust(i) matches Ok(t) ==> s.keeps(t, set![i]) && t.c_tot.v + t.insurance_fund.balance.v
            == s.c_tot.v + s.insurance_fund.balance.v,
{
    if let Ok(t) = s.sweep_dust(i) {
        set_capital_keeps_books(s, i, 0);
        let u = if s.accounts[i].capital.v > 0 {
            s.set_capital(i, 0)->Ok_0
        } else {
            s
        };
        swap_keeps_books(u, t, i);
    }
}

/// Reclaiming a slot keeps the books, the vault, what it owes in all, and every
/// other account, whether or not it succeeds. Where it does, the slot is free,
/// and both sides of the market are as they were.
pub proof fn reclaim_law(s: EngineState, idx: u16, now: u64)
    requires
        s.books(),
    ensures
        ({
                let t = s.reclaim(idx, now).0;
                &&& t.books()
                &&& s.others_same(t, set![idx as int])
                &&& t.vault == s.vault
                &&& t.c_tot.v + t.insurance_fund.balance.v == s.c_tot.v + s.insurance_fund.balance.v
                &&& s.reclaim(idx, now).1 is Ok ==> {
                    &&& t.conserved()
                    &&& !t.in_use(idx as int)
                    &&& t.oi_eff_long_q == s.oi_eff_long_q
                    &&& t.oi_eff_short_q == s.oi_eff_short_q
                    &&& t.side_mode_long == s.side_mode_long
                    &&& t.side_mode_short == s.side_mode_short
                    &&& t.adl_mult_long == s.adl_mult_long
                    &&& t.adl_mult_short == s.adl_mult_short
                    &&& t.adl_coeff_long == s.adl_coeff_long
                    &&& t.adl_coeff_short == s.adl_coeff_short
                    &&& t.last_market_slot == s.last_market_slot
                    &&& t.last_oracle_price == s.last_oracle_price
                }
        }),
{
    let i = idx as int;
    let s1 = s.at_slot(now);
    if s.in_use(i) && s.is_live() && s.current_slot <= now {
        later_keeps_books(s, now);
        lemma_sweep_dust(s1, i);
        if let Ok(s2) = s1.sweep_dust(i) {
            free_keeps_books(s2, idx);
        }
    }
}

proof fn lemma_collect(s: EngineState, start: int, n: nat)
    requires
        s.books(),
        0 <= start,
    ensures
        s.collect_dust(start, n) matches Ok(r) ==> {
            &&& r.0.books()
            &&& r.0.vault == s.vault
            &&& r.0.used == s.used
            &&& r.0.params == s.params
            &&& r.0.c_tot.v + r.0.insurance_fund.balance.v == s.c_tot.v + s.insurance_fund.balance.v
        },
    decreases n,
{
    if n > 0 {
        lemma_collect(s, start, (n - 1) as nat);
        if let Ok(r) = s.collect_dust(start, (n - 1) as nat) {
            let i = (start + n - 1) % (MAX_ACCOUNTS as int);
            if r.0.used[i] {
                lemma_sweep_dust(r.0, i);
            }
        }
    }
}

proof fn lemma_free_all(s: EngineState, list: Seq<u16>, n: nat)
    requires
        s.books(),
    ensures
        s.free_slots(list, n) matches Ok(t) ==> t.books() && t.params == s.params && t.vault == s.vault && t.c_tot == s.c_tot
            && t.insurance_fund == s.insurance_fund,
    decreases n,
{
    if n > 0 {
        lemma_free_all(s, list, (n - 1) as nat);
        if let Ok(t) = s.free_slots(list, (n - 1) as nat) {
            free_keeps_books(t, list[n - 1]);
        }
    }
}

/// Garbage collection keeps the books and the vault, and conservation.
pub proof fn garbage_law(s: EngineState)
    requires
        s.books(),
    ensures
        s.collect_garbage() matches Ok(r) ==> r.0.books() && r.0.vault == s.vault && r.0.conserved() == s.conserved()
            && r.0.params == s.params,
{
    if let Ok(r) = s.collect_garbage() {
        let start = s.gc_cursor as int;
        lemma_collect(s, start, ACCOUNTS_PER_CRANK as nat);
        let m = s.collect_dust(start, ACCOUNTS_PER_CRANK as nat)->Ok_0;
        let s1 = EngineState { gc_cursor: ((start + m.2) % (MAX_ACCOUNTS as int)) as u16, ..m.0 };
        lemma_free_all(s1, m.1, m.1.len());
    }
}

/// Topping up the insurance fund changes no account, keeps the books, and keeps
/// conservation.
pub proof fn top_up_law(s: EngineState, amount: u128, now: u64)
    requires
        s.books(),
    ensures
        s.top_up(amount, now) matches Ok(r) ==> {
            &&& r.0.books()
            &&& r.0.accounts == s.accounts
            &&& r.0.params == s.params
            &&& r.0.vault.v == s.vault.v + amount
            &&& r.0.insurance_fund.balance.v == s.insurance_fund.balance.v + amount
            &&& r.0.conserved() == s.conserved()
        },
{
}

/// Paying fee debt from outside adds the amount to vault and insurance alike,
/// changes no other account, and keeps the books and conservation.
pub proof fn pay_fee_debt_law(s: EngineState, idx: u16, amount: u128, now: u64)
    requires
        s.books(),
    ensures
        s.pay_fee_debt(idx, amount, now) matches Ok(t) ==> {
            &&& t.books()
            &&& s.others_same(t, set![idx as int])
            &&& t.vault.v == s.vault.v + amount
            &&& t.insurance_fund.balance.v == s.insurance_fund.balance.v + amount
            &&& t.accounts[idx as int].fee_debt() == s.accounts[idx as int].fee_debt() - amount
            &&& t.conserved() == s.conserved()
        },
{
    if let Ok(t) = s.pay_fee_debt(idx, amount, now) {
        let i = idx as int;
        if amount > 0 {
            let m = EngineState { current_slot: now, vault: t.vault, insurance_fund: t.insurance_fund, ..s };
            assert(m.books());
            swap_keeps_books(m, t, i);
        }
    }
}

/// A one-off fee changes the capital and fee credits of its account, the capital
/// total, the insurance fund and the slot, and nothing else.
pub proof fn charge_account_law(s: EngineState, idx: u16, fee: u128, now: u64)
    requires
        s.books(),
    ensures
        s.charge_account(idx, fee, now) matches Ok(t) ==> {
            let a = s.accounts[idx as int];
            let b = t.accounts[idx as int];
            &&& t.books()
            &&& s.others_same(t, set![idx as int])
            &&& b == (Account { capital: b.capital, fee_credits: b.fee_credits, ..a })
            &&& t == (EngineState {
                    accounts: t.accounts,
                    c_tot: t.c_tot,
                    insurance_fund: t.insurance_fund,
                    current_slot: now,
                    ..s
            })
            &&& t.c_tot.v + t.insurance_fund.balance.v == s.c_tot.v + s.insurance_fund.balance.v
        },
{
    if let Ok(t) = s.charge_account(idx, fee, now) {
        charge_keeps_books(s.at_slot(now), idx as int, fee);
        reveal(EngineState::charge_fee);
        assert(t.accounts =~= s.accounts.update(idx as int, t.accounts[idx as int]));
    }
}

/// Settling a flat account's loss changes neither the vault nor any other
/// account, and keeps the books.
pub proof fn settle_flat_law(s: EngineState, idx: u16, now: u64)
    requires
        s.books(),
    ensures
        s.settle_flat(idx, now) matches Ok(t) ==> s.keeps(t, set![idx as int]) && (s.conserved() ==> t.conserved()),
{
    if let Ok(t) = s.settle_flat(idx, now) {
        let i = idx as int;
        if s.accounts[i].pnl < 0 {
            let s0 = s.at_slot(now);
            settle_losses_keeps_books(s0, i);
            let s1 = s0.settle_losses(i)->Ok_0;
            resolve_flat_keeps_books(s1, i);
        }
    }
}

/// The recurring fee is charged once: a second call for the same slot changes
/// nothing. Neither changes the vault or any other account, and both keep the
/// books.
pub proof fn sync_account_fee_law(s: EngineState, idx: u16, now: u64, rate: u128)
    requires
        s.books(),
    ensures
        s.sync_account_fee(idx, now, rate) matches Ok(t) ==> {
            &&& s.keeps(t, set![idx as int])
            &&& t.sync_account_fee(idx, now, rate) == Ok::<EngineState, RiskError>(t)
        },
{
    if let Ok(t) = s.sync_account_fee(idx, now, rate) {
        let i = idx as int;
        let s0 = if s.is_live() {
            s.at_slot(now)
        } else {
            s
        };
        let anchor = if s.is_live() {
            now
        } else {
            s.resolved_slot
        };
        sync_fee_keeps_books(s0, i, anchor, rate);
        reveal(EngineState::sync_fee);
        reveal(EngineState::charge_fee);
    }
}

/// An account is never charged for the time before it was materialized: right
/// after the deposit that opens it, the recurring fee is zero.
pub proof fn new_account_owes_nothing(s: EngineState, idx: u16, amount: u128, now: u64, rate: u128)
    requires
        s.books(),
        !s.in_use(idx as int),
    ensures
        s.deposit(idx, amount, now) matches Ok(t) ==> t.sync_account_fee(idx, now, rate) == Ok::<
        EngineState,
        RiskError,
        >(t),
{
    reveal(EngineState::deposit);
    if let Ok(t) = s.deposit(idx, amount, now) {
        let i = idx as int;
        later_keeps_books(s, now);
        materialize_keeps_books(s.at_slot(now), idx, now);
        reveal(EngineState::sync_fee);
        reveal(EngineState::settle_losses);
        reveal(EngineState::sweep_fee_debt);
    }
}

/// Once an account is claimed, nobody can claim it again.
pub proof fn claim_is_final(s: EngineState, idx: u16, owner: [u8; 32], other: [u8; 32])
    requires
        s.accounts.len() == MAX_ACCOUNTS,
    ensures
        s.set_owner(idx, owner) matches Ok(t) ==> t.set_owner(idx, other) is Err && t.accounts[idx as int].owner
            == owner,
{
}

/// The two legs of a trade keep the books, and are zero-sum: what the two accounts
/// are worth together falls by the fees alone.
pub proof fn trade_legs_law(
    s: EngineState,
    c: CtxState,
    a: int,
    b: int,
    price: u64,
    size: i128,
    exec_price: u64,
    eq_a: I256,
    eq_b: I256,
)
    requires
        s.books(),
        s.in_use(a),
        s.in_use(b),
        a != b,
    ensures
        s.apply_trade(c, a, b, price, size, exec_price, eq_a, eq_b) matches Ok(r) ==> {
            &&& s.keeps(r.0, set![a, b])
            &&& r.1.touched == c.touched
            &&& r.0.accounts[a].equity_maint() + r.0.accounts[b].equity_maint() == s.accounts[a].equity_maint()
                + s.accounts[b].equity_maint() - r.2.fee_impact - r.3.fee_impact
        },
{
    reveal(EngineState::apply_trade);
    if let Ok(r) = s.apply_trade(c, a, b, price, size, exec_price, eq_a, eq_b) {
        let new_a = s.effective_pos(a) + size;
        let new_b = s.effective_pos(b) - size;
        let s1 = s.reopen_ready();
        assert(s1.books());
        let pnl = trade_pnl_of(size as int, price - exec_price);
        let pa = (s1.accounts[a].pnl + pnl) as i128;
        set_pnl_keeps_books(s1, a, pa, ReserveMode::UseAdmissionPair(c.admit_h_min, c.admit_h_max), c);
        let r2 = s1.book_trade_pnl(a, pnl, c)->Ok_0;
        let pb = (r2.0.accounts[b].pnl + -pnl) as i128;
        set_pnl_keeps_books(
            r2.0,
            b,
            pb,
            ReserveMode::UseAdmissionPair(r2.1.admit_h_min, r2.1.admit_h_max),
            r2.1,
        );
        let r3 = r2.0.book_trade_pnl(b, -pnl, r2.1)->Ok_0;
        position_keeps_books(r3.0, a, new_a as i128);
        let s4 = r3.0.attach_position(a, new_a as i128)->Ok_0;
        position_keeps_books(s4, b, new_b as i128);
        let s5 = s4.attach_position(b, new_b as i128)->Ok_0;
        let oi = s1.oi_after(s.effective_pos(a), new_a, s.effective_pos(b), new_b)->Ok_0;
        let s6 = EngineState { oi_eff_long_q: oi.0, oi_eff_short_q: oi.1, ..s5 };
        assert(s6.books());
        settle_losses_keeps_books(s6, a);
        let s7 = s6.settle_losses(a)->Ok_0;
        settle_losses_keeps_books(s7, b);
        let s8 = s7.settle_losses(b)->Ok_0;
        let fee = s8.trading_fee(size as int, exec_price as int) as u128;
        charge_keeps_books(s8, a, fee);
        let r9 = s8.charge_fee(a, fee)->Ok_0;
        charge_keeps_books(r9.0, b, fee);
    }
}

/// A trade changes neither the vault nor any account but the two that trade, and
/// keeps the books.
pub proof fn trade_law(
    s: EngineState,
    a: u16,
    b: u16,
    price: u64,
    now: u64,
    size: i128,
    exec_price: u64,
    rate: i128,
    h_min: u64,
    h_max: u64,
)
    requires
        s.books(),
    ensures
        s.execute_trade(a, b, price, now, size, exec_price, rate, h_min, h_max) matches Ok(t) ==> s.keeps(
            t,
            set![a as int, b as int],
        ) && t.conserved() && t.oi_balanced(),
{
    reveal(EngineState::execute_trade);
    if let Ok(t) = s.execute_trade(a, b, price, now, size, exec_price, rate, h_min, h_max) {
        let ia = a as int;
        let ib = b as int;
        let who = set![ia, ib];
        lemma_start(s, ia, price, now, rate, h_min, h_max);
        let r1 = s.start_live(ia, price, now, rate, h_min, h_max)->Ok_0;
        touch_keeps_books(r1.0, ib, r1.1);
        let r2 = r1.0.touch(ib, r1.1)->Ok_0;
        let eq_a = exact(r2.0.accounts[ia].equity_maint());
        let eq_b = exact(r2.0.accounts[ib].equity_maint());
        trade_legs_law(r2.0, r2.1, ia, ib, price, size, exec_price, eq_a, eq_b);
        let m = r2.0.apply_trade(r2.1, ia, ib, price, size, exec_price, eq_a, eq_b)->Ok_0;
        touch_adds_one(r1.1, b);
        assert forall|k: int| 0 <= k < m.1.touched.len() implies m.1.touched[k] == a || m.1.touched[k] == b by {
            assert(m.1.touched[k] == b || r1.1.touched.contains(m.1.touched[k]));
        }
        assert(named(m.1.touched).subset_of(who));
        finish_touched_keeps_books(m.0, m.1);
        let s3 = m.0.finish_touched(m.1)->Ok_0;
        end_keeps_books(s3, m.1);
    }
}

/// Liquidating a touched account changes no other account and keeps the books.
pub proof fn lemma_liquidate_touched(s: EngineState, idx: u16, price: u64, policy: LiquidationPolicy, c: CtxState)
    requires
        s.books(),
    ensures
        s.liquidate_touched(idx, price, policy, c) matches Ok(r) ==> s.keeps(r.0, set![idx as int]) && r.1.touched
            == c.touched,
{
    reveal(EngineState::liquidate_touched);
    if let Ok(r) = s.liquidate_touched(idx, price, policy, c) {
        let i = idx as int;
        if r.2 {
            let q0 = s.effective_pos(i);
            let side = side_of(q0)->0;
            match policy {
                LiquidationPolicy::ExactPartial(q) => {
                    let left = if q0 > 0 {
                        q0 - q
                    } else {
                        q0 + q
                    };
                    lemma_close_quantity(s, i, left as i128, q as int, price);
                    let s1 = s.close_quantity(i, left as i128, q as int, price)->Ok_0;
                    adl_keeps_books(s1, c, side, q, 0);
                },
                LiquidationPolicy::FullClose => {
                    lemma_close_quantity(s, i, 0, abs_of(q0), price);
                    let s1 = s.close_quantity(i, 0, abs_of(q0), price)->Ok_0;
                    let d = s1.deficit(i);
                    adl_keeps_books(s1, c, side, abs_of(q0) as u128, d as u128);
                    let m = s1.enqueue_adl(c, side, abs_of(q0) as u128, d as u128)->Ok_0;
                    set_pnl_plain_keeps_books(m.0, i, 0, ReserveMode::NoPositiveIncreaseAllowed);
                },
            }
        }
    }
}

proof fn lemma_close_quantity(s: EngineState, i: int, left: i128, q: int, price: u64)
    requires
        s.books(),
        s.in_use(i),
    ensures
        s.close_quantity(i, left, q, price) matches Ok(t) ==> s.keeps(t, set![i]),
{
    if let Ok(t) = s.close_quantity(i, left, q, price) {
        position_keeps_books(s, i, left);
        let s1 = s.attach_position(i, left)->Ok_0;
        settle_losses_keeps_books(s1, i);
        let s2 = s1.settle_losses(i)->Ok_0;
        charge_keeps_books(s2, i, s2.liquidation_fee(q, price as int) as u128);
    }
}

/// A liquidation changes neither the vault nor any other account, and keeps the
/// books: a deficit reaches the other side through its indices only.
pub proof fn liquidate_law(
    s: EngineState,
    idx: u16,
    now: u64,
    price: u64,
    policy: LiquidationPolicy,
    rate: i128,
    h_min: u64,
    h_max: u64,
)
    requires
        s.books(),
    ensures
        s.liquidate(idx, now, price, policy, rate, h_min, h_max) matches Ok(r) ==> s.keeps(r.0, set![idx as int])
            && r.0.conserved() && r.0.oi_balanced(),
{
    reveal(EngineState::liquidate);
    if let Ok(r) = s.liquidate(idx, now, price, policy, rate, h_min, h_max) {
        let i = idx as int;
        lemma_start(s, i, price, now, rate, h_min, h_max);
        let r1 = s.start_live(i, price, now, rate, h_min, h_max)->Ok_0;
        lemma_liquidate_touched(r1.0, idx, price, policy, r1.1);
        let r2 = r1.0.liquidate_touched(idx, price, policy, r1.1)->Ok_0;
        finish_touched_keeps_books(r2.0, r2.1);
        let s3 = r2.0.finish_touched(r2.1)->Ok_0;
        end_keeps_books(s3, r2.1);
    }
}

/// The accounts that candidates name.
pub open spec fn candidates_named(cands: Seq<Candidate>) -> Set<int> {
    Set::new(|j: int| exists|k: int| 0 <= k < cands.len() && (#[trigger] cands[k]).0 == j)
}

/// The candidates of a crank, one after the other, keep the books.
pub proof fn lemma_crank_run(start: CrankRun, cands: Seq<Candidate>, n: nat, max: int, price: u64)
    requires
        start.s.books(),
        start.c.touched.len() == 0,
        n <= cands.len(),
    ensures
        start.run(cands, n, max, price) matches Ok(r) ==> {
            &&& start.s.keeps(r.s, candidates_named(cands))
            &&& touched_in_use(r.s, r.c)
            &&& forall|k: int| 0 <= k < r.c.touched.len() ==> candidates_named(cands).contains(
                #[trigger] r.c.touched[k] as int,
            )
        },
    decreases n,
{
    if n > 0 {
        lemma_crank_run(start, cands, (n - 1) as nat, max, price);
        if let Ok(r) = start.run(cands, n, max, price) {
            let p = start.run(cands, (n - 1) as nat, max, price)->Ok_0;
            let cand = cands[n - 1];
            let i = cand.0 as int;
            assert(candidates_named(cands).contains(i));
            if p.attempts < max && !p.c.any_reset() && p.s.in_use(i) {
                touch_keeps_books(p.s, i, p.c);
                let t = p.s.touch(i, p.c)->Ok_0;
                reveal(EngineState::touch);
                let q0 = t.0.effective_pos(i);
                let policy = t.0.keeper_policy(i, q0, cand.1, price);
                if !(t.1.any_reset() || q0 == 0 || t.0.above_maint(t.0.accounts[i], i, price as int) || policy is None) {
                    lemma_liquidate_touched(t.0, cand.0, price, policy->0, t.1);
                }
                touch_adds_one(p.c, cand.0);
                assert forall|k: int| 0 <= k < r.c.touched.len() implies candidates_named(cands).contains(
                    #[trigger] r.c.touched[k] as int,
                ) && r.s.in_use(r.c.touched[k] as int) by {
                    if r.c.touched[k] != cand.0 {
                        assert(p.c.touched.contains(r.c.touched[k]));
                    }
                }
            }
        }
    }
}

/// A keeper crank changes neither the vault nor any account but its candidates,
/// and keeps the books.
pub proof fn crank_law(
    s: EngineState,
    now: u64,
    price: u64,
    cands: Seq<Candidate>,
    max: u16,
    rate: i128,
    h_min: u64,
    h_max: u64,
)
    requires
        s.books(),
    ensures
        s.keeper_crank(now, price, cands, max, rate, h_min, h_max) matches Ok(r) ==> s.keeps(
            r.0,
            candidates_named(cands),
        ) && r.0.conserved() && r.0.oi_balanced() && r.1.num_gc_closed == 0,
{
    reveal(EngineState::keeper_crank);
    if let Ok(r) = s.keeper_crank(now, price, cands, max, rate, h_min, h_max) {
        accrue_keeps_books(s, now, price, rate);
        let s1 = s.accrue(now, price, rate)->Ok_0;
        let s2 = if now > s1.last_crank_slot {
            EngineState { last_crank_slot: now, ..s1 }
        } else {
            s1
        };
        let start = CrankRun { s: s2, c: CtxState::fresh(h_min, h_max), attempts: 0, liquidations: 0 };
        lemma_crank_run(start, cands, cands.len(), max as int, price);
        let m = start.run(cands, cands.len(), max as int, price)->Ok_0;
        finish_touched_keeps_books(m.s, m.c);
        let s3 = m.s.finish_touched(m.c)->Ok_0;
        assert(named(m.c.touched).subset_of(candidates_named(cands))) by {
            assert forall|j: int| named(m.c.touched).contains(j) implies candidates_named(cands).contains(j) by {
                let k = choose|k: int| 0 <= k < m.c.touched.len() && m.c.touched[k] == j as u16;
                assert(candidates_named(cands).contains(m.c.touched[k] as int));
            }
        }
        end_keeps_books(s3, m.c);
    }
}

proof fn lemma_crank_counts(start: CrankRun, cands: Seq<Candidate>, n: nat, max: int, price: u64)
    requires
        start.attempts == 0,
        start.liquidations == 0,
        0 <= max,
        n <= cands.len(),
    ensures
        start.run(cands, n, max, price) matches Ok(r) ==> {
            &&& 0 <= r.liquidations <= r.attempts <= max
            &&& (forall|k: int| 0 <= k < cands.len() ==> (#[trigger] cands[k]).1 is None) ==> r.liquidations == 0
        },
    decreases n,
{
    if n > 0 {
        lemma_crank_counts(start, cands, (n - 1) as nat, max, price);
        if forall|k: int| 0 <= k < cands.len() ==> (#[trigger] cands[k]).1 is None {
            assert(cands[n - 1].1 is None);
        }
    }
}

/// A keeper crank liquidates no more accounts than it may look at, and none where
/// no candidate comes with a hint. It says whether it is the latest crank.
pub proof fn crank_outcome_law(
    s: EngineState,
    now: u64,
    price: u64,
    cands: Seq<Candidate>,
    max: u16,
    rate: i128,
    h_min: u64,
    h_max: u64,
)
    ensures
        s.keeper_crank(now, price, cands, max, rate, h_min, h_max) matches Ok(r) ==> {
            &&& max <= MAX_TOUCHED_PER_INSTRUCTION
            &&& r.1.num_liquidations <= max
            &&& (forall|k: int| 0 <= k < cands.len() ==> (#[trigger] cands[k]).1 is None) ==> r.1.num_liquidations == 0
            &&& r.1.advanced == (now > s.last_crank_slot)
            &&& r.1.num_gc_closed == 0
        },
{
    reveal(EngineState::keeper_crank);
    if let Ok(r) = s.keeper_crank(now, price, cands, max, rate, h_min, h_max) {
        reveal(EngineState::accrue);
        let s1 = s.accrue(now, price, rate)->Ok_0;
        let s2 = if now > s1.last_crank_slot {
            EngineState { last_crank_slot: now, ..s1 }
        } else {
            s1
        };
        let start = CrankRun { s: s2, c: CtxState::fresh(h_min, h_max), attempts: 0, liquidations: 0 };
        lemma_crank_counts(start, cands, cands.len(), max as int, price);
    }
}

/// Resolving the market changes neither the vault nor any account, ends all open
/// interest, and keeps the books.
pub proof fn resolve_law(s: EngineState, mode: ResolveMode, resolved: u64, live: u64, now: u64, rate: i128)
    requires
        s.books(),
    ensures
        s.resolve_market(mode, resolved, live, now, rate) matches Ok(t) ==> {
            &&& t.books()
            &&& t.conserved()
            &&& t.accounts == s.accounts
            &&& t.params == s.params
            &&& t.vault == s.vault
            &&& !t.is_live()
            &&& t.oi_eff_long_q == 0
            &&& t.oi_eff_short_q == 0
            &&& t.pnl_matured_pos_tot == t.pnl_pos_tot
        },
{
    reveal(EngineState::resolve_market);
    if let Ok(t) = s.resolve_market(mode, resolved, live, now, rate) {
        accrue_keeps_books(s, now, live, rate);
        reveal(EngineState::accrue);
    }
}

/// Ending a position at settlement keeps the books.
pub proof fn lemma_settle_terminal(s: EngineState, i: int)
    requires
        s.books(),
        s.in_use(i),
        !s.is_live(),
    ensures
        s.settle_terminal(i) matches Ok(t) ==> s.keeps(t, set![i]) && t.accounts[i].position_basis_q == 0,
{
    reveal(EngineState::settle_terminal);
    if let Ok(t) = s.settle_terminal(i) {
        let a = s.accounts[i];
        if a.position_basis_q != 0 {
            let side = side_of(a.position_basis_q as int)->0;
            let delta = index_pnl_or_overflow(
                abs_of(a.position_basis_q as int),
                s.k_epoch_start(side) + s.terminal_shift(side) - a.adl_k_snap,
                s.f_epoch_start(side) - a.f_snap,
                (a.adl_a_basis * POS_SCALE) as u128 as int,
            )->Ok_0;
            let pnl = (a.pnl + delta) as i128;
            set_pnl_plain_keeps_books(s, i, pnl, ReserveMode::ImmediateReleaseResolvedOnly);
            let s1 = if delta != 0 {
                let u = s.set_pnl_plain(i, pnl, ReserveMode::ImmediateReleaseResolvedOnly)->Ok_0;
                EngineState { pnl_matured_pos_tot: u.pnl_pos_tot, ..u }
            } else {
                s
            };
            assert(s1.books());
            let s2 = s1.with_stale_count(side, (s1.stale_count(side) - 1) as u64);
            assert(s2.books());
            position_keeps_books(s2, i, 0);
        }
    }
}

/// Reconciling an account of a resolved market changes neither the vault nor any
/// other account, leaves it flat with no negative PnL, and keeps the books.
pub proof fn reconcile_law(s: EngineState, idx: u16)
    requires
        s.books(),
    ensures
        s.reconcile(idx) matches Ok(t) ==> s.keeps(t, set![idx as int]) && t.conserved()
            && t.accounts[idx as int].position_basis_q == 0 && t.accounts[idx as int].pnl >= 0,
{
    reveal(EngineState::reconcile);
    if let Ok(t) = s.reconcile(idx) {
        let i = idx as int;
        let s1 = s.at_slot(s.resolved_slot).with_account(i, s.accounts[i].without_reserve());
        swap_keeps_books(s.at_slot(s.resolved_slot), s1, i);
        lemma_settle_terminal(s1, i);
        let s2 = s1.settle_terminal(i)->Ok_0;
        settle_losses_keeps_books(s2, i);
        let s3 = s2.settle_losses(i)->Ok_0;
        resolve_flat_keeps_books(s3, i);
        reveal(EngineState::settle_losses);
        reveal(EngineState::resolve_flat_negative);
        if s3.accounts[i].pnl < 0 {
            set_pnl_plain_keeps_books(
                s3.absorb_loss(-(s3.accounts[i].pnl as int)),
                i,
                0,
                ReserveMode::ImmediateReleaseResolvedOnly,
            );
        } else {
        }
        lemma_position_survives(s2, s3, i);
    }
}

proof fn lemma_position_survives(s2: EngineState, s3: EngineState, i: int)
    requires
        s2.books(),
        s2.in_use(i),
        s2.settle_losses(i) == Ok::<EngineState, RiskError>(s3),
        s2.accounts[i].position_basis_q == 0,
    ensures
        s3.accounts[i].position_basis_q == 0,
        s3.effective_pos(i) == 0,
{
    reveal(EngineState::settle_losses);
    let a = s2.accounts[i];
    if a.pnl < 0 {
        let pay = min_of(-(a.pnl as int), a.capital.v as int);
        if pay > 0 {
            set_capital_keeps_books(s2, i, (a.capital.v - pay) as u128);
            let t = s2.set_capital(i, (a.capital.v - pay) as u128)->Ok_0;
            set_pnl_plain_keeps_books(t, i, (a.pnl + pay) as i128, ReserveMode::ImmediateReleaseResolvedOnly);
        }
    }
}

/// Closing an account of a resolved market pays out of the vault what it
/// returns, blanks the account and frees its slot, changes no other account, and
/// keeps the books. The payout ratio is frozen by the first account that is paid
/// a profit and the same for all later ones.
pub proof fn close_terminal_law(s: EngineState, idx: u16)
    requires
        s.books(),
    ensures
        s.close_terminal(idx) matches Ok(r) ==> {
            &&& r.0.books()
            &&& r.0.conserved()
            &&& s.others_same(r.0, set![idx as int])
            &&& r.0.vault.v == s.vault.v - r.1
            &&& !r.0.in_use(idx as int)
            &&& s.resolved_payout_ready != 0 ==> r.0.resolved_payout_ready != 0 && r.0.resolved_payout_h_num
                == s.resolved_payout_h_num && r.0.resolved_payout_h_den == s.resolved_payout_h_den
        },
{
    reveal(EngineState::close_terminal);
    if let Ok(r) = s.close_terminal(idx) {
        let i = idx as int;
        let s1 = s.with_account(i, s.accounts[i].without_reserve());
        swap_keeps_books(s, s1, i);
        lemma_pay_profit(s1, i);
        let s2 = s1.pay_profit(i)->Ok_0;
        sweep_keeps_books(s2, i);
        let s3 = s2.sweep_fee_debt(i)->Ok_0;
        reveal(EngineState::sweep_fee_debt);
        let s4 = s3.forgive_fee_debt(i);
        assert(s4.accounts =~= s3.accounts.update(i, s4.accounts[i]));
        swap_keeps_books(s3, s4, i);
        let cap = s4.accounts[i].capital.v;
        let s4v = EngineState { vault: U128 { v: (s4.vault.v - cap) as u128 }, ..s4 };
        assert(s4v.books());
        set_capital_keeps_books(s4v, i, 0);
        let p = s4.pay_out(i)->Ok_0;
        free_keeps_books(p.0, idx);
    }
}

/// Paying a profit at the frozen ratio keeps the books.
pub proof fn lemma_pay_profit(s: EngineState, i: int)
    requires
        s.books(),
        s.in_use(i),
        !s.is_live(),
    ensures
        s.pay_profit(i) matches Ok(t) ==> s.keeps(t, set![i]) && (s.resolved_payout_ready != 0
                ==> t.resolved_payout_ready != 0 && t.resolved_payout_h_num == s.resolved_payout_h_num
                && t.resolved_payout_h_den == s.resolved_payout_h_den),
{
    if let Ok(t) = s.pay_profit(i) {
        let pnl = s.accounts[i].pnl;
        if pnl > 0 {
            let s1 = s.with_payout_frozen();
            assert(s1.books());
            let y = muldiv(pnl as int, s1.resolved_payout_h_num as int, s1.resolved_payout_h_den as int);
            set_pnl_plain_keeps_books(s1, i, 0, ReserveMode::NoPositiveIncreaseAllowed);
            let s2 = s1.set_pnl_plain(i, 0, ReserveMode::NoPositiveIncreaseAllowed)->Ok_0;
            set_capital_keeps_books(s2, i, (s2.accounts[i].capital.v + y) as u128);
            reveal(EngineState::set_pnl);
            reveal(EngineState::raise_pnl);
            reveal(EngineState::lower_pnl);
        }
    }
}

/// A forced close keeps the books and changes no other account; the vault pays
/// what it returns.
pub proof fn force_close_law(s: EngineState, idx: u16)
    requires
        s.books(),
    ensures
        s.force_close(idx) matches Ok(r) ==> {
            &&& r.0.books()
            &&& r.0.conserved()
            &&& s.others_same(r.0, set![idx as int])
            &&& match r.1 {
                ResolvedCloseResult::ProgressOnly => r.0.vault == s.vault && r.0.in_use(idx as int),
                ResolvedCloseResult::Closed(cap) => r.0.vault.v == s.vault.v - cap && !r.0.in_use(idx as int),
            }
        },
{
    if let Ok(r) = s.force_close(idx) {
        reconcile_law(s, idx);
        reveal(EngineState::reconcile);
        let s1 = s.reconcile(idx)->Ok_0;
        let s2 = s1.reopen_ready();
        assert(s2.books());
        close_terminal_law(s2, idx);
    }
}

proof fn lemma_haircut_sum(acc: Seq<Account>, num: int, den: int)
    requires
        0 <= num <= den,
        den > 0,
    ensures
        total(acc, |a: Account| muldiv(pos_of(pos_of(a.pnl as int) - a.reserved_pnl), num, den)) * den <= total(
            acc,
            |a: Account| pos_of(pos_of(a.pnl as int) - a.reserved_pnl),
        ) * num,
    decreases acc.len(),
{
    let f = |a: Account| muldiv(pos_of(pos_of(a.pnl as int) - a.reserved_pnl), num, den);
    let g = |a: Account| pos_of(pos_of(a.pnl as int) - a.reserved_pnl);
    if acc.len() > 0 {
        lemma_haircut_sum(acc.drop_last(), num, den);
        let x = g(acc.last());
        let tf = total(acc.drop_last(), f);
        let tg = total(acc.drop_last(), g);
        vstd::arithmetic::div_mod::lemma_fundamental_div_mod(x * num, den);
        let y = muldiv(x, num, den);
        assert(y * den <= x * num) by (nonlinear_arith)
            requires
                x * num == den * y + (x * num) % den,
                (x * num) % den >= 0,
            ;
        assert((tf + y) * den == tf * den + y * den) by (nonlinear_arith);
        assert((tg + x) * num == tg * num + x * num) by (nonlinear_arith);
    } else {
        assert(0 * den == 0 * num);
    }
}

/// What all accounts together can claim of the matured PnL after the haircut is
/// covered by the residual: the vault never owes more than it holds.
pub proof fn haircut_claims_are_covered(s: EngineState)
    requires
        s.books(),
        s.is_live(),
    ensures
        total(s.accounts, |a: Account| muldiv(pos_of(pos_of(a.pnl as int) - a.reserved_pnl), s.haircut().0, s.haircut().1))
            <= s.residual(),
{
    let num = s.haircut().0;
    let den = s.haircut().1;
    let f = |a: Account| muldiv(pos_of(pos_of(a.pnl as int) - a.reserved_pnl), num, den);
    let g = |a: Account| pos_of(pos_of(a.pnl as int) - a.reserved_pnl);
    lemma_haircut_sum(s.accounts, num, den);
    lemma_released_total(s.accounts);
    let tf = total(s.accounts, f);
    let m = s.pnl_matured_pos_tot as int;
    assert(total(s.accounts, g) == m);
    if m == 0 {
        assert(tf * 1 <= 0 * 1);
        assert(tf <= 0);
    } else {
        assert(tf * den <= den * num);
        assert(tf <= num) by (nonlinear_arith)
            requires
                tf * den <= den * num,
                den > 0,
            ;
    }
}

proof fn lemma_released_total(acc: Seq<Account>)
    requires
        forall|i: int| 0 <= i < acc.len() ==> reserve_within(#[trigger] acc[i]),
    ensures
        total(acc, |a: Account| pos_of(pos_of(a.pnl as int) - a.reserved_pnl)) == total(acc, profit_of()) - total(
            acc,
            reserve_of(),
        ),
    decreases acc.len(),
{
    if acc.len() > 0 {
        assert forall|i: int| 0 <= i < acc.drop_last().len() implies reserve_within(#[trigger] acc.drop_last()[i]) by {
            assert(reserve_within(acc[i]));
        }
        lemma_released_total(acc.drop_last());
        assert(reserve_within(acc[acc.len() - 1]));
    }
}

} // verus!
