//! What the accounts of a resolved market are paid: each its capital and the same
//! share of its profit, in whatever order they are closed.

use vstd::prelude::*;
use crate::constants::MAX_ACCOUNTS;
use crate::engine::books::{
    capital_within_total, counts_long, counts_negative, counts_short, fees_within, lemma_counts,
    lemma_total_update, profit_of, set_capital_keeps_books, swap_keeps_books, sweep_keeps_books,
    total, vacant,
};
use crate::engine::laws::{close_terminal_law, free_keeps_books, lemma_pay_profit, reconcile_law};
use crate::int128::U128;
use crate::model::EngineState;
use crate::types::{Account, ReserveMode, ResolvedCloseResult, RiskError};
use crate::wide_math::{min_of, muldiv, pos_of};

verus! {

/// What the profit of an account comes to at the ratio `num / den`.
pub open spec fn profit_share(a: Account, num: int, den: int) -> int {
    if a.pnl > 0 {
        muldiv(a.pnl as int, num, den)
    } else {
        0
    }
}

/// What a reconciled account is paid at the ratio `num / den`: its capital and the
/// share of its profit, less its fee debt as far as these reach.
pub open spec fn payout_of(a: Account, num: int, den: int) -> int {
    let gross = a.capital.v + profit_share(a, num, den);
    gross - min_of(a.fee_debt(), gross)
}

impl EngineState {
    /// The ratio at which profits are paid: the frozen one, or the one that the next
    /// payout would freeze.
    pub open spec fn payout_ratio(self) -> (int, int) {
        let f = self.with_payout_frozen();
        (f.resolved_payout_h_num as int, f.resolved_payout_h_den as int)
    }

    /// What the vault holds beyond all capital and the insurance fund, which may be
    /// less than nothing.
    pub open spec fn surplus(self) -> int {
        self.vault.v - self.c_tot.v - self.insurance_fund.balance.v
    }
}

/// A closed account is paid its capital and the share of its profit, less its fee
/// debt. The share comes out of the surplus, and the rest does not touch it. The
/// vault falls by what is paid, the slot is free, and no other account changes.
pub proof fn payout_is_capital_and_share(s: EngineState, idx: u16)
    requires
        s.accounts.len() == MAX_ACCOUNTS,
        s.used.len() == MAX_ACCOUNTS,
    ensures
        s.close_terminal(idx) matches Ok(r) ==> {
            let a = s.accounts[idx as int];
            let (num, den) = s.payout_ratio();
            &&& r.1 == payout_of(a, num, den)
            &&& r.0.vault.v == s.vault.v - r.1
            &&& r.0.used == s.used.update(idx as int, false)
            &&& s.others_same(r.0, set![idx as int])
            &&& r.0.surplus() == s.surplus() - profit_share(a, num, den)
            &&& r.0.pnl_pos_tot == s.pnl_pos_tot - pos_of(a.pnl as int)
            &&& a.pnl > 0 ==> r.0.resolved_payout_ready != 0
            &&& a.pnl <= 0 ==> r.0.resolved_payout_ready == s.resolved_payout_ready
            &&& r.0.payout_ratio() == s.payout_ratio()
        },
{
    reveal(EngineState::close_terminal);
    if let Ok(r) = s.close_terminal(idx) {
        let i = idx as int;
        let a = s.accounts[i];
        let s1 = s.with_account(i, a.without_reserve());
        reveal(EngineState::set_pnl);
        reveal(EngineState::raise_pnl);
        reveal(EngineState::lower_pnl);
        let s2 = s1.pay_profit(i)->Ok_0;
        reveal(EngineState::sweep_fee_debt);
        let s3 = s2.sweep_fee_debt(i)->Ok_0;
    }
}

/// It does not matter who is closed first: an account is paid the same before and
/// after another one was closed.
pub proof fn payouts_do_not_depend_on_order(s: EngineState, a: u16, b: u16)
    requires
        s.accounts.len() == MAX_ACCOUNTS,
        s.used.len() == MAX_ACCOUNTS,
        a != b,
        s.close_terminal(a) is Ok,
        s.close_terminal(b) is Ok,
        s.close_terminal(a)->Ok_0.0.close_terminal(b) is Ok,
    ensures
        s.close_terminal(a)->Ok_0.0.close_terminal(b)->Ok_0.1 == s.close_terminal(b)->Ok_0.1,
{
    reveal(EngineState::close_terminal);
    let t = s.close_terminal(a)->Ok_0.0;
    payout_is_capital_and_share(s, a);
    payout_is_capital_and_share(s, b);
    payout_is_capital_and_share(t, b);
    assert(t.accounts[b as int] == s.accounts[b as int]);
}

impl EngineState {
    /// No position and no loss is left.
    pub open spec fn is_settled(self) -> bool {
        &&& self.stored_pos_count_long == 0
        &&& self.stored_pos_count_short == 0
        &&& self.neg_pnl_account_count == 0
    }

    /// All profits together, at the payout ratio, come to no more than the surplus.
    /// The ratio was frozen only once all was settled.
    pub open spec fn profits_covered(self) -> bool {
        let (num, den) = self.payout_ratio();
        &&& total(self.accounts, |a: Account| profit_share(a, num, den)) <= self.surplus()
        &&& self.resolved_payout_ready != 0 ==> den > 0 && self.is_settled()
    }
}

proof fn lemma_shares(acc: Seq<Account>, num: int, den: int)
    requires
        0 <= num,
        den > 0,
    ensures
        0 <= total(acc, |a: Account| profit_share(a, num, den)),
        total(acc, |a: Account| profit_share(a, num, den)) * den <= total(acc, profit_of()) * num,
    decreases acc.len(),
{
    let f = |a: Account| profit_share(a, num, den);
    if acc.len() > 0 {
        lemma_shares(acc.drop_last(), num, den);
        let x = pos_of(acc.last().pnl as int);
        let y = profit_share(acc.last(), num, den);
        let tf = total(acc.drop_last(), f);
        let tg = total(acc.drop_last(), profit_of());
        assert(0 <= x * num) by (nonlinear_arith)
            requires
                0 <= x,
                0 <= num,
            ;
        vstd::arithmetic::div_mod::lemma_fundamental_div_mod(x * num, den);
        vstd::arithmetic::div_mod::lemma_div_pos_is_pos(x * num, den);
        assert(y * den <= x * num) by (nonlinear_arith)
            requires
                x * num == den * (x * num / den) + (x * num) % den,
                (x * num) % den >= 0,
                y == x * num / den || (y == 0 && x == 0),
            ;
        assert((tf + y) * den == tf * den + y * den) by (nonlinear_arith);
        assert((tg + x) * num == tg * num + x * num) by (nonlinear_arith);
    } else {
        assert(0 * den == 0 * num);
    }
}

proof fn lemma_no_shares(acc: Seq<Account>, num: int, den: int)
    requires
        total(acc, profit_of()) == 0,
    ensures
        total(acc, |a: Account| profit_share(a, num, den)) == 0,
    decreases acc.len(),
{
    if acc.len() > 0 {
        lemma_profit_total(acc.drop_last());
        lemma_no_shares(acc.drop_last(), num, den);
    }
}

proof fn lemma_profit_total(acc: Seq<Account>)
    ensures
        0 <= total(acc, profit_of()),
    decreases acc.len(),
{
    if acc.len() > 0 {
        lemma_profit_total(acc.drop_last());
    }
}

/// Before the ratio is frozen, the profits that it will pay are covered.
pub proof fn profits_are_covered_at_first(s: EngineState)
    requires
        s.books(),
        s.conserved(),
        s.resolved_payout_ready == 0,
    ensures
        s.profits_covered(),
{
    let (num, den) = s.payout_ratio();
    let f = |a: Account| profit_share(a, num, den);
    if s.pnl_pos_tot == 0 {
        lemma_no_shares(s.accounts, num, den);
    } else {
        lemma_shares(s.accounts, num, den);
        let tf = total(s.accounts, f);
        assert(tf <= num) by (nonlinear_arith)
            requires
                tf * den <= den * num,
                den > 0,
            ;
    }
}

/// Closing an account leaves the profits of the others covered.
pub proof fn closing_keeps_profits_covered(s: EngineState, idx: u16)
    requires
        s.books(),
        s.profits_covered(),
    ensures
        s.close_terminal(idx) matches Ok(r) ==> r.0.profits_covered(),
{
    if let Ok(r) = s.close_terminal(idx) {
        let i = idx as int;
        close_terminal_law(s, idx);
        payout_is_capital_and_share(s, idx);
        let (num, den) = s.payout_ratio();
        let f = |a: Account| profit_share(a, num, den);
        reveal(EngineState::close_terminal);
        let t = r.0;
        assert(t.accounts =~= s.accounts.update(i, t.accounts[i]));
        lemma_total_update(s.accounts, i, t.accounts[i], f);
        lemma_total_update(s.accounts, i, t.accounts[i], counts_negative());
        lemma_total_update(s.accounts, i, t.accounts[i], counts_long());
        lemma_total_update(s.accounts, i, t.accounts[i], counts_short());
        assert(vacant(t.accounts[i]));
        assert(f(t.accounts[i]) == 0);
        if s.accounts[i].pnl > 0 {
            assert(den != 0);
        } else {
            assert(t.resolved_payout_ready == s.resolved_payout_ready);
        }
    }
}

proof fn lemma_profit_within_total(acc: Seq<Account>, i: int)
    requires
        0 <= i < acc.len(),
    ensures
        pos_of(acc[i].pnl as int) <= total(acc, profit_of()),
    decreases acc.len(),
{
    lemma_profit_total(acc.drop_last());
    if i < acc.len() - 1 {
        lemma_profit_within_total(acc.drop_last(), i);
    }
}

/// No profit share is larger than all of them together.
proof fn lemma_share_within_total(acc: Seq<Account>, i: int, num: int, den: int)
    requires
        0 <= i < acc.len(),
        0 <= num,
        den > 0,
    ensures
        profit_share(acc[i], num, den) <= total(acc, |a: Account| profit_share(a, num, den)),
{
    let f = |a: Account| profit_share(a, num, den);
    let b = Account { pnl: 0, ..acc[i] };
    lemma_total_update(acc, i, b, f);
    lemma_shares(acc.update(i, b), num, den);
}

/// What covered profits come to for one account: its share is within the surplus.
proof fn lemma_covered(s: EngineState, i: int)
    requires
        s.books(),
        s.profits_covered(),
        s.in_use(i),
    ensures
        ({
                let (num, den) = s.payout_ratio();
                &&& 0 <= profit_share(s.accounts[i], num, den) <= s.surplus()
                &&& s.accounts[i].pnl > 0 ==> den > 0
        }),
{
    let (num, den) = s.payout_ratio();
    lemma_profit_within_total(s.accounts, i);
    if den > 0 {
        lemma_shares(s.accounts, num, den);
        lemma_share_within_total(s.accounts, i, num, den);
        let x = s.accounts[i].pnl as int;
        if x > 0 {
            assert(0 <= x * num) by (nonlinear_arith)
                requires
                    0 <= x,
                    0 <= num,
                ;
            vstd::arithmetic::div_mod::lemma_div_pos_is_pos(x * num, den);
        }
    } else {
        assert(s.pnl_pos_tot == 0);
        lemma_no_shares(s.accounts, num, den);
    }
}

proof fn lemma_pay_profit_succeeds(s: EngineState, i: int)
    requires
        s.books(),
        s.profits_covered(),
        s.terminal_ready(),
        !s.is_live(),
        s.in_use(i),
        s.accounts[i].pnl >= 0,
        s.accounts[i].reserved_pnl == 0,
    ensures
        s.pay_profit(i) matches Ok(t) && {
            let y = profit_share(s.accounts[i], s.payout_ratio().0, s.payout_ratio().1);
            &&& t.accounts == s.accounts.update(
                i,
                Account { pnl: 0, capital: U128 { v: (s.accounts[i].capital.v + y) as u128 }, ..s.accounts[i] },
            )
            &&& t.c_tot.v == s.c_tot.v + y
            &&& t.vault == s.vault
            &&& t.insurance_fund == s.insurance_fund
        },
{
    let a = s.accounts[i];
    lemma_covered(s, i);
    lemma_profit_within_total(s.accounts, i);
    capital_within_total(s.accounts, i);
    reveal(EngineState::set_pnl);
    reveal(EngineState::lower_pnl);
    if a.pnl > 0 {
        let s1 = s.with_payout_frozen();
        let s2 = s1.set_pnl_plain(i, 0, ReserveMode::NoPositiveIncreaseAllowed);
        assert(s2 is Ok);
    }
    if let Ok(t) = s.pay_profit(i) {
        let y = profit_share(s.accounts[i], s.payout_ratio().0, s.payout_ratio().1);
        assert(t.accounts =~= s.accounts.update(
                i,
                Account { pnl: 0, capital: U128 { v: (a.capital.v + y) as u128 }, ..a },
        ));
    }
}

/// Nobody is left unpaid: once payouts can begin, every reconciled account can be
/// closed, whoever was closed before.
pub proof fn every_account_can_be_closed(s: EngineState, idx: u16)
    requires
        s.books(),
        s.profits_covered(),
        s.oi_balanced(),
        s.terminal_ready(),
        !s.is_live(),
        s.in_use(idx as int),
        s.accounts[idx as int].position_basis_q == 0,
        s.accounts[idx as int].pnl >= 0,
    ensures
        s.close_terminal(idx) is Ok,
{
    reveal(EngineState::close_terminal);
    let i = idx as int;
    let a = s.accounts[i];
    let (num, den) = s.payout_ratio();
    let y = profit_share(a, num, den);
    lemma_covered(s, i);
    lemma_profit_within_total(s.accounts, i);
    capital_within_total(s.accounts, i);
    assert(fees_within(a, s.fee_limit()));
    let s1 = s.with_account(i, a.without_reserve());
    swap_keeps_books(s, s1, i);
    reveal(EngineState::set_pnl);
    reveal(EngineState::lower_pnl);
    reveal(EngineState::sweep_fee_debt);
    lemma_total_update(s.accounts, i, s1.accounts[i], |b: Account| profit_share(b, num, den));
    lemma_pay_profit_succeeds(s1, i);
    lemma_pay_profit(s1, i);
    let s2 = s1.pay_profit(i)->Ok_0;
    assert(s2.accounts[i].capital.v == a.capital.v + y);
    assert(s2.c_tot.v == s.c_tot.v + y);
    let s3 = s2.sweep_fee_debt(i)->Ok_0;
    sweep_keeps_books(s2, i);
    let s4 = s3.forgive_fee_debt(i);
    assert(s4.accounts =~= s3.accounts.update(i, s4.accounts[i]));
    swap_keeps_books(s3, s4, i);
    let cap = s4.accounts[i].capital.v;
    let s4v = EngineState { vault: U128 { v: (s4.vault.v - cap) as u128 }, ..s4 };
    assert(s4v.books());
    set_capital_keeps_books(s4v, i, 0);
    let p = s4.pay_out(i)->Ok_0;
    assert(p.0.freeable(i));
    free_keeps_books(p.0, idx);
}

/// Once payouts can begin, a forced close pays every account, whoever was paid
/// before: its capital and the share of its profit, less its fee debt.
pub proof fn force_close_pays_everyone(s: EngineState, idx: u16)
    requires
        s.books(),
        s.profits_covered(),
        s.oi_balanced(),
        s.terminal_ready(),
        !s.is_live(),
        s.in_use(idx as int),
    ensures
        s.force_close(idx) matches Ok(r) && r.0.profits_covered() && r.1 == ResolvedCloseResult::Closed(
            payout_of(s.accounts[idx as int], s.payout_ratio().0, s.payout_ratio().1) as u128,
        ),
{
    reveal(EngineState::reconcile);
    reveal(EngineState::settle_terminal);
    reveal(EngineState::settle_losses);
    reveal(EngineState::resolve_flat_negative);
    let i = idx as int;
    let a = s.accounts[i];
    let (num, den) = s.payout_ratio();
    lemma_counts(s.accounts, i);
    lemma_covered(s, i);
    let s1 = s.at_slot(s.resolved_slot).with_account(i, a.without_reserve());
    lemma_total_update(s.accounts, i, s1.accounts[i], |b: Account| profit_share(b, num, den));
    assert(s.reconcile(idx) == Ok::<EngineState, RiskError>(s1));
    reconcile_law(s, idx);
    let s2 = s1.reopen_ready();
    assert(s2.books());
    every_account_can_be_closed(s2, idx);
    payout_is_capital_and_share(s2, idx);
    closing_keeps_profits_covered(s2, idx);
}

} // verus!
