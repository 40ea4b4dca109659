//! The books of the engine: its aggregates are the sums and counts over its
//! accounts, and every operation keeps them so. Along with that: which accounts
//! an operation changes, and what it does to the vault.

use vstd::prelude::*;
use crate::constants::{MAX_ACCOUNTS, MAX_PROTOCOL_FEE_ABS, POS_SCALE};
use crate::context::CtxState;
use crate::engine::positions::index_pnl_or_overflow;
use crate::model::EngineState;
use crate::types::{other_side, side_of, Account, ReserveMode, Side};
use crate::wide_math::{abs_of, min_of, pos_of};

verus! {

/// The sum of a quantity over all accounts.
pub open spec fn total(accounts: Seq<Account>, f: spec_fn(Account) -> int) -> int
    decreases accounts.len(),
{
    if accounts.len() == 0 {
        0
    } else {
        total(accounts.drop_last(), f) + f(accounts.last())
    }
}

pub open spec fn capital_of() -> spec_fn(Account) -> int {
    |a: Account| a.capital.v as int
}

pub open spec fn profit_of() -> spec_fn(Account) -> int {
    |a: Account| pos_of(a.pnl as int)
}

pub open spec fn reserve_of() -> spec_fn(Account) -> int {
    |a: Account| a.reserved_pnl as int
}

pub open spec fn counts_negative() -> spec_fn(Account) -> int {
    |a: Account| if a.pnl < 0 {
        1int
    } else {
        0int
    }
}

pub open spec fn counts_long() -> spec_fn(Account) -> int {
    |a: Account| if a.position_basis_q > 0 {
        1int
    } else {
        0int
    }
}

pub open spec fn counts_short() -> spec_fn(Account) -> int {
    |a: Account| if a.position_basis_q < 0 {
        1int
    } else {
        0int
    }
}

/// An account that holds nothing that the aggregates count.
pub open spec fn vacant(a: Account) -> bool {
    a.capital.v == 0 && a.pnl == 0 && a.reserved_pnl == 0 && a.position_basis_q == 0
}

/// The reserve of an account is part of its profit.
pub open spec fn reserve_within(a: Account) -> bool {
    a.reserved_pnl <= pos_of(a.pnl as int)
}

/// No fee was charged beyond slot `limit`, and the account is owed none.
pub open spec fn fees_within(a: Account, limit: u64) -> bool {
    &&& a.last_fee_slot <= limit
    &&& i128::MIN < a.fee_credits.v <= 0
}

/// The account is still the same holder's.
pub open spec fn same_holder(a: Account, b: Account) -> bool {
    &&& b.owner == a.owner
    &&& b.kind == a.kind
    &&& b.matcher_program == a.matcher_program
    &&& b.matcher_context == a.matcher_context
}

impl EngineState {
    /// The latest slot up to which a recurring fee can have been charged.
    pub open spec fn fee_limit(self) -> u64 {
        if self.is_live() {
            self.current_slot
        } else {
            self.resolved_slot
        }
    }

    /// The aggregates agree with the accounts: the capital and profit totals are
    /// sums, the counters count, and the matured total is what is not reserved (all
    /// of it once the market is resolved). Unused slots hold nothing, and the free
    /// list runs through them. No side has more positions than allowed. No fee was
    /// charged ahead of time, and fee credits are debts.
    pub open spec fn books(self) -> bool {
        let acc = self.accounts;
        &&& acc.len() == MAX_ACCOUNTS
        &&& self.used.len() == MAX_ACCOUNTS
        &&& self.c_tot.v == total(acc, capital_of())
        &&& self.pnl_pos_tot == total(acc, profit_of())
        &&& self.neg_pnl_account_count == total(acc, counts_negative())
        &&& self.stored_pos_count_long == total(acc, counts_long())
        &&& self.stored_pos_count_short == total(acc, counts_short())
        &&& self.pnl_matured_pos_tot == self.pnl_pos_tot - if self.is_live() {
            total(acc, reserve_of())
        } else {
            0
        }
        &&& self.is_live() ==> forall|i: int| 0 <= i < MAX_ACCOUNTS ==> reserve_within(#[trigger] acc[i])
        &&& forall|i: int| 0 <= i < MAX_ACCOUNTS && !self.used[i] ==> vacant(#[trigger] acc[i])
        &&& self.slots_ok()
        &&& self.stored_pos_count_long <= self.params.max_active_positions_per_side
        &&& self.stored_pos_count_short <= self.params.max_active_positions_per_side
        &&& forall|i: int| 0 <= i < MAX_ACCOUNTS ==> fees_within(#[trigger] acc[i], self.fee_limit())
    }

    /// From `self` to `t` no slot is taken or freed, no parameter changes, and time
    /// does not go back.
    pub open spec fn same_frame(self, t: EngineState) -> bool {
        &&& t.used == self.used
        &&& t.next_free == self.next_free
        &&& t.prev_free == self.prev_free
        &&& t.free_head == self.free_head
        &&& t.num_used_accounts == self.num_used_accounts
        &&& t.materialized_account_count == self.materialized_account_count
        &&& t.params == self.params
        &&& t.market_mode == self.market_mode
        &&& self.fee_limit() <= t.fee_limit()
    }

    /// From `self` to `t` only accounts of `who` change, and of those neither the
    /// holder nor what is kept for the holder; nor does the vault.
    pub open spec fn changes_only(self, t: EngineState, who: Set<int>) -> bool {
        &&& self.same_frame(t)
        &&& t.vault == self.vault
        &&& t.accounts.len() == self.accounts.len()
        &&& forall|j: int|
        0 <= j < self.accounts.len() && !who.contains(j) ==> #[trigger] t.accounts[j] == self.accounts[j]
        &&& forall|j: int| 0 <= j < self.accounts.len() ==> same_holder(self.accounts[j], #[trigger] t.accounts[j])
    }

    /// The books stand before and after, and only accounts of `who` change.
    pub open spec fn keeps(self, t: EngineState, who: Set<int>) -> bool {
        t.books() && self.changes_only(t, who)
    }
}

/// A total after one account changed.
pub proof fn lemma_total_update(acc: Seq<Account>, i: int, a: Account, f: spec_fn(Account) -> int)
    requires
        0 <= i < acc.len(),
    ensures
        total(acc.update(i, a), f) == total(acc, f) - f(acc[i]) + f(a),
    decreases acc.len(),
{
    let b = acc.update(i, a);
    if i == acc.len() - 1 {
        assert(b.drop_last() =~= acc.drop_last());
    } else {
        assert(b.drop_last() =~= acc.drop_last().update(i, a));
        lemma_total_update(acc.drop_last(), i, a, f);
    }
}

/// No account holds more capital than all together.
pub proof fn capital_within_total(acc: Seq<Account>, i: int)
    requires
        0 <= i < acc.len(),
    ensures
        acc[i].capital.v <= total(acc, capital_of()),
    decreases acc.len(),
{
    if i < acc.len() - 1 {
        capital_within_total(acc.drop_last(), i);
    } else {
        lemma_total_not_negative(acc.drop_last());
    }
}

proof fn lemma_counts_not_negative(acc: Seq<Account>)
    ensures
        0 <= total(acc, counts_negative()),
        0 <= total(acc, counts_long()),
        0 <= total(acc, counts_short()),
    decreases acc.len(),
{
    if acc.len() > 0 {
        lemma_counts_not_negative(acc.drop_last());
    }
}

/// No account counts for more than all together.
pub proof fn lemma_counts(acc: Seq<Account>, i: int)
    requires
        0 <= i < acc.len(),
    ensures
        counts_negative()(acc[i]) <= total(acc, counts_negative()),
        counts_long()(acc[i]) <= total(acc, counts_long()),
        counts_short()(acc[i]) <= total(acc, counts_short()),
    decreases acc.len(),
{
    lemma_counts_not_negative(acc.drop_last());
    if i < acc.len() - 1 {
        lemma_counts(acc.drop_last(), i);
    }
}

proof fn lemma_total_not_negative(acc: Seq<Account>)
    ensures
        0 <= total(acc, capital_of()),
    decreases acc.len(),
{
    if acc.len() > 0 {
        lemma_total_not_negative(acc.drop_last());
    }
}

/// A change of one account, with the aggregates moved by the same amounts, keeps
/// the books.
proof fn lemma_step(s: EngineState, t: EngineState, i: int)
    requires
        s.books(),
        s.in_use(i),
        s.changes_only(t, set![i]),
        t.c_tot.v - s.c_tot.v == t.accounts[i].capital.v - s.accounts[i].capital.v,
        t.pnl_pos_tot - s.pnl_pos_tot == pos_of(t.accounts[i].pnl as int) - pos_of(s.accounts[i].pnl as int),
        t.neg_pnl_account_count - s.neg_pnl_account_count == counts_negative()(t.accounts[i]) - counts_negative()(
            s.accounts[i],
        ),
        t.stored_pos_count_long - s.stored_pos_count_long == counts_long()(t.accounts[i]) - counts_long()(
            s.accounts[i],
        ),
        t.stored_pos_count_short - s.stored_pos_count_short == counts_short()(t.accounts[i]) - counts_short()(
            s.accounts[i],
        ),
        s.is_live() ==> reserve_within(t.accounts[i]),
        s.is_live() ==> (t.pnl_pos_tot - t.pnl_matured_pos_tot) - (s.pnl_pos_tot - s.pnl_matured_pos_tot)
            == t.accounts[i].reserved_pnl - s.accounts[i].reserved_pnl,
        !s.is_live() ==> t.pnl_matured_pos_tot == t.pnl_pos_tot,
        t.stored_pos_count_long <= s.stored_pos_count_long || t.stored_pos_count_long
            <= s.params.max_active_positions_per_side,
        t.stored_pos_count_short <= s.stored_pos_count_short || t.stored_pos_count_short
            <= s.params.max_active_positions_per_side,
        t.accounts[i].last_fee_slot == s.accounts[i].last_fee_slot || t.accounts[i].last_fee_slot <= t.fee_limit(),
        t.accounts[i].fee_credits == s.accounts[i].fee_credits || i128::MIN < t.accounts[i].fee_credits.v <= 0,
    ensures
        s.keeps(t, set![i]),
{
    let a = t.accounts[i];
    assert(t.accounts =~= s.accounts.update(i, a));
    lemma_total_update(s.accounts, i, a, capital_of());
    lemma_total_update(s.accounts, i, a, profit_of());
    lemma_total_update(s.accounts, i, a, reserve_of());
    lemma_total_update(s.accounts, i, a, counts_negative());
    lemma_total_update(s.accounts, i, a, counts_long());
    lemma_total_update(s.accounts, i, a, counts_short());
    assert forall|j: int| 0 <= j < MAX_ACCOUNTS && !t.used[j] implies vacant(#[trigger] t.accounts[j]) by {
        assert(j != i);
        assert(vacant(s.accounts[j]));
    }
    assert forall|j: int| 0 <= j < MAX_ACCOUNTS implies fees_within(#[trigger] t.accounts[j], t.fee_limit()) by {
        assert(fees_within(s.accounts[j], s.fee_limit()));
    }
    if s.is_live() {
        assert forall|j: int| 0 <= j < MAX_ACCOUNTS implies reserve_within(#[trigger] t.accounts[j]) by {
            if j != i {
                assert(reserve_within(s.accounts[j]));
            }
        }
    }
}

/// A change of one account in nothing that the aggregates count keeps the books;
/// in a resolved market that goes for its reserve too.
pub proof fn swap_keeps_books(s: EngineState, t: EngineState, i: int)
    requires
        s.books(),
        s.in_use(i),
        t.accounts == s.accounts.update(i, t.accounts[i]),
        t.accounts[i].pnl == s.accounts[i].pnl,
        t.accounts[i].position_basis_q == s.accounts[i].position_basis_q,
        t.accounts[i].capital.v == s.accounts[i].capital.v + t.c_tot.v - s.c_tot.v,
        s.is_live() ==> t.accounts[i].reserved_pnl == s.accounts[i].reserved_pnl,
        t.accounts[i].last_fee_slot == s.accounts[i].last_fee_slot,
        t.accounts[i].fee_credits == s.accounts[i].fee_credits || i128::MIN < t.accounts[i].fee_credits.v <= 0,
        s.same_frame(t),
        t.vault == s.vault,
        t.pnl_pos_tot == s.pnl_pos_tot,
        t.pnl_matured_pos_tot == s.pnl_matured_pos_tot,
        t.neg_pnl_account_count == s.neg_pnl_account_count,
        t.stored_pos_count_long == s.stored_pos_count_long,
        t.stored_pos_count_short == s.stored_pos_count_short,
    ensures
        t.books(),
        same_holder(s.accounts[i], t.accounts[i]) ==> s.keeps(t, set![i]),
{
    assert(reserve_within(s.accounts[i]) || !s.is_live());
    // Compared over a state in which the account is already the new holder's.
    let m = EngineState {
        accounts: s.accounts.update(
            i,
            Account {
                owner: t.accounts[i].owner,
                kind: t.accounts[i].kind,
                matcher_program: t.accounts[i].matcher_program,
                matcher_context: t.accounts[i].matcher_context,
                ..s.accounts[i]
            },
        ),
        ..s
    };
    lemma_total_update(s.accounts, i, m.accounts[i], capital_of());
    lemma_total_update(s.accounts, i, m.accounts[i], profit_of());
    lemma_total_update(s.accounts, i, m.accounts[i], reserve_of());
    lemma_total_update(s.accounts, i, m.accounts[i], counts_negative());
    lemma_total_update(s.accounts, i, m.accounts[i], counts_long());
    lemma_total_update(s.accounts, i, m.accounts[i], counts_short());
    assert forall|j: int| 0 <= j < MAX_ACCOUNTS && !m.used[j] implies vacant(#[trigger] m.accounts[j]) by {
        assert(vacant(s.accounts[j]));
    }
    if s.is_live() {
        assert forall|j: int| 0 <= j < MAX_ACCOUNTS implies reserve_within(#[trigger] m.accounts[j]) by {
            assert(reserve_within(s.accounts[j]));
        }
    }
    assert forall|j: int| 0 <= j < MAX_ACCOUNTS implies fees_within(#[trigger] m.accounts[j], m.fee_limit()) by {
        assert(fees_within(s.accounts[j], s.fee_limit()));
    }
    assert(m.books());
    lemma_step(m, t, i);
}

/// A change that leaves the accounts and the aggregates alone keeps the books.
proof fn lemma_still(s: EngineState, t: EngineState, who: Set<int>)
    requires
        s.books(),
        lines_kept(s, t),
    ensures
        s.keeps(t, who),
{
}

/// Setting the capital of an account keeps the books.
pub proof fn set_capital_keeps_books(s: EngineState, i: int, v: u128)
    requires
        s.books(),
        s.in_use(i),
    ensures
        s.set_capital(i, v) matches Ok(t) ==> s.keeps(t, set![i]),
{
    if let Ok(t) = s.set_capital(i, v) {
        assert(reserve_within(s.accounts[i]) || !s.is_live());
        lemma_step(s, t, i);
    }
}

/// Setting the PnL of an account keeps the books.
pub proof fn set_pnl_keeps_books(s: EngineState, i: int, pnl: i128, mode: ReserveMode, c: CtxState)
    requires
        s.books(),
        s.in_use(i),
    ensures
        s.set_pnl(i, pnl, mode, c) matches Ok(r) ==> s.keeps(r.0, set![i]) && r.0.accounts[i].pnl == pnl
            && r.0.accounts[i].capital == s.accounts[i].capital && r.0.accounts[i].position_basis_q
            == s.accounts[i].position_basis_q && r.0.accounts[i].fee_credits == s.accounts[i].fee_credits
            && r.1.touched == c.touched,
{
    reveal(EngineState::set_pnl);
    if let Ok(r) = s.set_pnl(i, pnl, mode, c) {
        let t = r.0;
        let a = s.accounts[i];
        assert(reserve_within(a) || !s.is_live());
        if pos_of(pnl as int) > pos_of(a.pnl as int) {
            reveal(EngineState::raise_pnl);
            lemma_step(s, t, i);
        } else {
            reveal(EngineState::lower_pnl);
            lemma_step(s, t, i);
        }
    }
}

/// [`set_pnl_keeps_books`] for changes without a context.
pub proof fn set_pnl_plain_keeps_books(s: EngineState, i: int, pnl: i128, mode: ReserveMode)
    requires
        s.books(),
        s.in_use(i),
    ensures
        s.set_pnl_plain(i, pnl, mode) matches Ok(t) ==> s.keeps(t, set![i]) && t.accounts[i].pnl == pnl
            && t.accounts[i].capital == s.accounts[i].capital && t.accounts[i].position_basis_q
            == s.accounts[i].position_basis_q && t.accounts[i].fee_credits == s.accounts[i].fee_credits,
{
    set_pnl_keeps_books(s, i, pnl, mode, CtxState::fresh(0, 0));
}

/// Taking matured PnL of an account keeps the books.
pub proof fn consume_released_keeps_books(s: EngineState, i: int, x: u128)
    requires
        s.books(),
        s.in_use(i),
    ensures
        s.consume_released(i, x) matches Ok(t) ==> s.keeps(t, set![i]),
{
    reveal(EngineState::consume_released);
    if let Ok(t) = s.consume_released(i, x) {
        assert(reserve_within(s.accounts[i]) || !s.is_live());
        lemma_step(s, t, i);
    }
}

/// Maturing a reserve keeps the books.
pub proof fn warmup_keeps_books(s: EngineState, i: int)
    requires
        s.books(),
        s.in_use(i),
        s.is_live(),
    ensures
        s.admit_outstanding(i) matches Ok(t) ==> s.keeps(t, set![i]),
        s.advance_warmup(i) matches Ok(t) ==> s.keeps(t, set![i]),
{
    reveal(EngineState::advance_warmup);
    assert(reserve_within(s.accounts[i]));
    if let Ok(t) = s.admit_outstanding(i) {
        lemma_step(s, t, i);
    }
    if let Ok(t) = s.advance_warmup(i) {
        lemma_step(s, t, i);
    }
}

/// Removing or giving a position keeps the books.
pub proof fn position_keeps_books(s: EngineState, i: int, q: i128)
    requires
        s.books(),
        s.in_use(i),
    ensures
        s.set_basis(i, q) matches Ok(t) ==> s.keeps(t, set![i]),
        s.clear_position(i) matches Ok(t) ==> s.keeps(t, set![i]),
        s.attach_position(i, q) matches Ok(t) ==> s.keeps(t, set![i]) && t.accounts[i].equity_maint()
            == s.accounts[i].equity_maint(),
{
    reveal(EngineState::attach_position);
    assert(reserve_within(s.accounts[i]) || !s.is_live());
    if let Ok(t) = s.set_basis(i, q) {
        lemma_step(s, t, i);
    }
    if let Ok(t) = s.clear_position(i) {
        lemma_step(s, t, i);
    }
    if let Ok(t) = s.attach_position(i, q) {
        lemma_step(s, t, i);
    }
}

/// Settling an account against its side keeps the books.
pub proof fn settle_side_keeps_books(s: EngineState, i: int, c: CtxState)
    requires
        s.books(),
        s.in_use(i),
    ensures
        s.settle_side_effects(i, c) matches Ok(r) ==> s.keeps(r.0, set![i]) && r.1.touched == c.touched,
{
    reveal(EngineState::settle_side_effects);
    let a = s.accounts[i];
    if a.position_basis_q != 0 {
        if let Ok(r) = s.settle_side_effects(i, c) {
            let side = side_of(a.position_basis_q as int)->0;
            let mode = ReserveMode::UseAdmissionPair(c.admit_h_min, c.admit_h_max);
            let k = if a.adl_epoch_snap == s.epoch_side(side) {
                s.k_side(side)
            } else {
                s.k_epoch_start(side)
            };
            let f = if a.adl_epoch_snap == s.epoch_side(side) {
                s.f_side(side)
            } else {
                s.f_epoch_start(side)
            };
            let delta = index_pnl_or_overflow(
                abs_of(a.position_basis_q as int),
                k - a.adl_k_snap,
                f - a.f_snap,
                (a.adl_a_basis * POS_SCALE) as u128 as int,
            )->Ok_0;
            let pnl = (a.pnl + delta) as i128;
            set_pnl_keeps_books(s, i, pnl, mode, c);
            let m = s.set_pnl(i, pnl, mode, c)->Ok_0;
            let t = m.0;
            if a.adl_epoch_snap == s.epoch_side(side) && s.effective_pos(i) != 0 {
                assert(reserve_within(t.accounts[i]) || !t.is_live());
                lemma_step(t, r.0, i);
            } else {
                let u = if a.adl_epoch_snap == s.epoch_side(side) {
                    t.add_dust(side, 1)->Ok_0
                } else {
                    t
                };
                lemma_still(t, u, set![i]);
                position_keeps_books(u, i, 0);
                let v = u.clear_position(i)->Ok_0;
                lemma_still(v, r.0, set![i]);
            }
        }
    } else {
        lemma_still(s, s, set![i]);
    }
}

/// Paying losses from capital keeps the books, and what capital and PnL come to
/// together.
pub proof fn settle_losses_keeps_books(s: EngineState, i: int)
    requires
        s.books(),
        s.in_use(i),
    ensures
        s.settle_losses(i) matches Ok(t) ==> s.keeps(t, set![i]) && t.accounts[i].capital.v + t.accounts[i].pnl
            == s.accounts[i].capital.v + s.accounts[i].pnl && t.accounts[i].fee_credits == s.accounts[i].fee_credits,
{
    reveal(EngineState::settle_losses);
    lemma_still(s, s, set![i]);
    let a = s.accounts[i];
    if a.pnl < 0 && a.pnl != i128::MIN {
        let pay = min_of(-(a.pnl as int), a.capital.v as int);
        if pay > 0 {
            set_capital_keeps_books(s, i, (a.capital.v - pay) as u128);
            if let Ok(t) = s.set_capital(i, (a.capital.v - pay) as u128) {
                set_pnl_plain_keeps_books(t, i, (a.pnl + pay) as i128, ReserveMode::ImmediateReleaseResolvedOnly);
            }
        }
    }
}

/// Forgiving the negative PnL of a flat account keeps the books.
pub proof fn resolve_flat_keeps_books(s: EngineState, i: int)
    requires
        s.books(),
        s.in_use(i),
    ensures
        s.resolve_flat_negative(i) matches Ok(t) ==> s.keeps(t, set![i]),
{
    reveal(EngineState::resolve_flat_negative);
    lemma_still(s, s, set![i]);
    let pnl = s.accounts[i].pnl;
    let t = s.absorb_loss(-(pnl as int));
    lemma_still(s, t, set![i]);
    set_pnl_plain_keeps_books(t, i, 0, ReserveMode::ImmediateReleaseResolvedOnly);
}

/// Paying fee debt from capital keeps the books, and what all capital and the
/// insurance fund come to together.
pub proof fn sweep_keeps_books(s: EngineState, i: int)
    requires
        s.books(),
        s.in_use(i),
    ensures
        s.sweep_fee_debt(i) matches Ok(t) ==> s.keeps(t, set![i]) && t.c_tot.v + t.insurance_fund.balance.v
            == s.c_tot.v + s.insurance_fund.balance.v,
{
    reveal(EngineState::sweep_fee_debt);
    lemma_still(s, s, set![i]);
    let a = s.accounts[i];
    let pay = min_of(a.fee_debt(), a.capital.v as int);
    if pay != 0 {
        set_capital_keeps_books(s, i, (a.capital.v - pay) as u128);
        if let Ok(t) = s.sweep_fee_debt(i) {
            let u = s.set_capital(i, (a.capital.v - pay) as u128)->Ok_0;
            assert(reserve_within(u.accounts[i]) || !u.is_live());
            lemma_step(u, t, i);
        }
    }
}

/// Charging a fee keeps the books, and what all capital and the insurance fund
/// come to together.
pub proof fn charge_keeps_books(s: EngineState, i: int, fee: u128)
    requires
        s.books(),
        s.in_use(i),
    ensures
        s.charge_fee(i, fee) matches Ok(r) ==> s.keeps(r.0, set![i]) && r.0.c_tot.v
            + r.0.insurance_fund.balance.v == s.c_tot.v + s.insurance_fund.balance.v && r.1.impact + r.1.dropped == fee
            && r.0.accounts[i].equity_maint() == s.accounts[i].equity_maint() - r.1.impact,
{
    reveal(EngineState::charge_fee);
    let a = s.accounts[i];
    let paid = min_of(fee as int, a.capital.v as int);
    if let Ok(r) = s.charge_fee(i, fee) {
        assert(reserve_within(a) || !s.is_live());
        lemma_step(s, r.0, i);
    }
}

/// Charging the recurring fee keeps the books.
pub proof fn sync_fee_keeps_books(s: EngineState, i: int, anchor: u64, rate: u128)
    requires
        s.books(),
    ensures
        s.sync_fee(i, anchor, rate) matches Ok(t) ==> s.keeps(t, set![i]) && t.c_tot.v + t.insurance_fund.balance.v
            == s.c_tot.v + s.insurance_fund.balance.v,
{
    reveal(EngineState::sync_fee);
    if let Ok(t) = s.sync_fee(i, anchor, rate) {
        lemma_still(s, s, set![i]);
        let last = s.accounts[i].last_fee_slot;
        if last != anchor {
            let fee = min_of(rate * (anchor - last), MAX_PROTOCOL_FEE_ABS as int);
            charge_keeps_books(s, i, fee as u128);
            let u = if fee > 0 {
                s.charge_fee(i, fee as u128)->Ok_0.0
            } else {
                s
            };
            assert(reserve_within(u.accounts[i]) || !u.is_live());
            lemma_step(u, t, i);
        }
    }
}

/// Accruing the market keeps the books and changes no account.
pub proof fn accrue_keeps_books(s: EngineState, now: u64, price: u64, rate: i128)
    requires
        s.books(),
    ensures
        s.accrue(now, price, rate) matches Ok(t) ==> s.keeps(t, Set::empty()),
{
    reveal(EngineState::accrue);
    if let Ok(t) = s.accrue(now, price, rate) {
        lemma_still(s, t, Set::empty());
    }
}

/// Touching an account keeps the books and changes no other account.
pub proof fn touch_keeps_books(s: EngineState, i: int, c: CtxState)
    requires
        s.books(),
    ensures
        s.touch(i, c) matches Ok(r) ==> s.keeps(r.0, set![i]) && c.touch(i as u16) == Some(
            CtxState { touched: r.1.touched, ..c.touch(i as u16)->0 },
        ),
{
    reveal(EngineState::touch);
    if let Ok(r) = s.touch(i, c) {
        let c1 = c.touch(i as u16)->0;
        warmup_keeps_books(s, i);
        let s1 = s.admit_outstanding(i)->Ok_0;
        warmup_keeps_books(s1, i);
        let s2 = s1.advance_warmup(i)->Ok_0;
        settle_side_keeps_books(s2, i, c1);
        let m = s2.settle_side_effects(i, c1)->Ok_0;
        settle_losses_keeps_books(m.0, i);
        let s4 = m.0.settle_losses(i)->Ok_0;
        resolve_flat_keeps_books(s4, i);
    }
}

/// Finishing an account keeps the books.
pub proof fn finish_account_keeps_books(s: EngineState, i: int, whole: bool)
    requires
        s.books(),
        s.in_use(i),
    ensures
        s.finish_account(i, whole) matches Ok(t) ==> s.keeps(t, set![i]),
{
    reveal(EngineState::finish_account);
    if let Ok(t) = s.finish_account(i, whole) {
        let a = s.accounts[i];
        let released = s.released(i);
        if whole && a.position_basis_q == 0 && a.pnl > 0 && released > 0 {
            consume_released_keeps_books(s, i, released as u128);
            let u = s.consume_released(i, released as u128)->Ok_0;
            let cap = (u.accounts[i].capital.v + released) as u128;
            set_capital_keeps_books(u, i, cap);
            sweep_keeps_books(u.set_capital(i, cap)->Ok_0, i);
        } else {
            sweep_keeps_books(s, i);
        }
    }
}

/// The accounts that a list names.
pub open spec fn named(list: Seq<u16>) -> Set<int> {
    Set::new(|j: int| 0 <= j <= u16::MAX && list.contains(j as u16))
}

proof fn lemma_finish_accounts(s: EngineState, order: Seq<u16>, whole: bool, n: nat)
    requires
        s.books(),
        n <= order.len(),
        forall|k: int| 0 <= k < order.len() ==> s.in_use(#[trigger] order[k] as int),
    ensures
        s.finish_accounts(order, whole, n) matches Ok(t) ==> s.keeps(t, named(order)),
    decreases n,
{
    if n == 0 {
        lemma_still(s, s, named(order));
    } else if let Ok(t) = s.finish_accounts(order, whole, n) {
        lemma_finish_accounts(s, order, whole, (n - 1) as nat);
        let u = s.finish_accounts(order, whole, (n - 1) as nat)->Ok_0;
        let i = order[n - 1] as int;
        assert(named(order).contains(i)) by {
            assert(order.contains(order[n - 1]));
        }
        finish_account_keeps_books(u, i, whole);
    }
}

/// Every touched account is in use.
pub open spec fn touched_in_use(s: EngineState, c: CtxState) -> bool {
    forall|k: int| 0 <= k < c.touched.len() ==> s.in_use(#[trigger] c.touched[k] as int)
}

/// Finishing the touched accounts keeps the books and changes no other account.
pub proof fn finish_touched_keeps_books(s: EngineState, c: CtxState)
    requires
        s.books(),
        touched_in_use(s, c),
    ensures
        s.finish_touched(c) matches Ok(t) ==> s.keeps(t, named(c.touched)),
{
    reveal(EngineState::finish_touched);
    lemma_finish_accounts(s, c.touched, s.is_whole(), c.touched.len());
}

/// The end of an instruction keeps the books and changes no account.
pub proof fn end_keeps_books(s: EngineState, c: CtxState)
    requires
        s.books(),
    ensures
        s.schedule_resets(c) matches Ok(r) ==> s.keeps(r.0, Set::empty()),
        s.finalize_resets(c) matches Ok(t) ==> s.keeps(t, Set::empty()),
        s.end_instruction(c) matches Ok(t) ==> s.keeps(t, Set::empty()),
{
    reveal(EngineState::schedule_resets);
    reveal(EngineState::finalize_resets);
    if let Ok(r) = s.schedule_resets(c) {
        lemma_still(s, r.0, Set::empty());
    }
    if let Ok(t) = s.finalize_resets(c) {
        lemma_still(s, t, Set::empty());
    }
    if let Ok(t) = s.end_instruction(c) {
        let r = s.schedule_resets(c)->Ok_0;
        lemma_still(r.0, t, Set::empty());
    }
}

/// Auto-deleveraging keeps the books and changes no account.
pub proof fn adl_keeps_books(s: EngineState, c: CtxState, liq: Side, q: u128, d: u128)
    requires
        s.books(),
    ensures
        s.enqueue_adl(c, liq, q, d) matches Ok(r) ==> s.keeps(r.0, Set::empty()) && r.1.touched == c.touched,
{
    reveal(EngineState::enqueue_adl);
    if let Ok(r) = s.enqueue_adl(c, liq, q, d) {
        let opp = other_side(liq);
        let left = (s.oi_eff(liq) - q) as u128;
        let s1 = s.with_oi_eff(liq, left);
        let s2 = s1.absorb_loss(d as int);
        let oi = s2.oi_eff(opp);
        let s3 = s2.socialize(opp, d - s1.insured(d as int), oi as int);
        assert(lines_kept(s, s1));
        assert(lines_kept(s1, s2));
        assert(lines_kept(s2, s3));
        if oi != 0 && s2.stored_pos_count(opp) != 0 && oi != q {
            lemma_shrink_keeps_lines(s3, c, opp, oi as int, (oi - q) as u128);
        }
        assert(lines_kept(s, r.0));
        lemma_still(s, r.0, Set::empty());
    }
}

/// The accounts and the aggregates of `t` are those of `s`.
spec fn lines_kept(s: EngineState, t: EngineState) -> bool {
    &&& t.accounts == s.accounts
    &&& s.same_frame(t)
    &&& t.vault == s.vault
    &&& t.c_tot == s.c_tot
    &&& t.pnl_pos_tot == s.pnl_pos_tot
    &&& t.pnl_matured_pos_tot == s.pnl_matured_pos_tot
    &&& t.neg_pnl_account_count == s.neg_pnl_account_count
    &&& t.stored_pos_count_long == s.stored_pos_count_long
    &&& t.stored_pos_count_short == s.stored_pos_count_short
}

proof fn lemma_shrink_keeps_lines(s: EngineState, c: CtxState, side: Side, oi: int, oi_post: u128)
    ensures
        s.shrink_side(c, side, oi, oi_post) matches Ok(r) ==> lines_kept(s, r.0) && r.1.touched == c.touched,
{
}

} // verus!
