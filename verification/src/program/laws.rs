//! What holds of the program as a whole: every instruction keeps the books of the
//! engine, moves the vault by the tokens it transfers, and leaves alone whom it
//! does not concern.

use vstd::prelude::*;
use crate::address::{AccountView, Pubkey};
use crate::constants::{GC_CLOSE_BUDGET, MAX_ACCOUNTS, MAX_ORACLE_PRICE, MAX_VAULT_TVL};
use crate::engine::books::{accrue_keeps_books, swap_keeps_books};
use crate::engine::interest_laws::{
    depositing_keeps_interest_backed, liquidating_keeps_interest_backed,
    reclaiming_keeps_interest_backed, settling_keeps_interest_backed,
    trading_keeps_interest_backed, withdrawing_keeps_interest_backed,
};
use crate::engine::laws::{
    deposit_law, deposit_raises_equity, liquidate_law, reclaim_law, settle_account_law,
    trade_law, withdraw_law,
};
use crate::engine::losses::{
    deposit_leaves_losses_paid, lemma_others_paid, liquidate_leaves_losses_paid, loss_paid,
    reclaim_leaves_losses_paid, settle_account_leaves_losses_paid, trade_leaves_losses_paid,
    withdraw_leaves_losses_paid,
};
use crate::engine::open_interest::unchanged_interest_is_backed;
use crate::engine::order::fresh_market_is_in_order;
use crate::layout::{engine_of, engine_of_image, is_engine};
use crate::model::{params_valid, EngineState};
use crate::program::checks::{
    live_header, oracle_price, order_price, risk_params_ok, slab_is_new, slab_shape, slab_size,
};
use crate::program::error::PercolatorError;
use crate::program::instruction::{
    BootstrapLpArgs, CrankArgs, CrankKind, DepositArgs, InitializeEngineArgs, LiquidateArgs,
    PlaceOrderArgs, RiskParamsArgs, WithdrawArgs,
};
use crate::program::operations::{
    CRANK_BOUNTY, PROTOCOL_LP_OWNER_SENTINEL, PROTOCOL_LP_SLOT, first_where_is_first,
};
use crate::program::processor::{
    bootstrap_effect, crank_effect, deposit_effect, effected, engine_part, holds_engine,
    is_fresh_slab, is_slab, liquidate_effect, order_side, place_order_effect, slab_engine,
    withdraw_effect, Effect, Outcome, TokenTransfer,
};
use crate::program::state::{ENGINE_OFFSET, header_image_is_unique, header_of, SlabHeader};
use crate::types::{zero_key, Account, LiquidationPolicy, Side};
use crate::wide_math::min_of;

verus! {

/// A deposit puts its amount into the vault and into a slot that is the user's
/// afterwards; no other account changes, and the books are kept.
pub proof fn take_deposit_law(s: EngineState, user: Pubkey, amount: u64, now: u64)
    requires
        s.books(),
        params_valid(s.params),
    ensures
        s.take_deposit(user, amount, now) matches Ok((t, (i, fresh))) ==> {
            &&& t.books()
            &&& t.conserved()
            &&& t.vault.v <= MAX_VAULT_TVL
            &&& t.vault.v == s.vault.v + amount
            &&& s.others_same(t, set![i as int])
            &&& t.owned_by(i as int, user.bytes)
            &&& fresh == (s.owner_slot(user.bytes) is None)
        },
{
    if let Ok((t, (i, fresh))) = s.take_deposit(user, amount, now) {
        first_where_is_first(0, s.params.max_accounts as int, |j: int| s.owned_by(j, user.bytes));
        deposit_law(s, i, amount as u128, now);
        if fresh {
            let u = s.deposit(i, amount as u128, now)->Ok_0;
            swap_keeps_books(u, t, i as int);
        } else {
            deposit_raises_equity(s, i, amount as u128, now);
        }
    }
}

/// No user's deposit reaches the protocol LP, whose owner is nobody's key.
pub proof fn deposits_never_reach_lp(s: EngineState, user: Pubkey, amount: u64, now: u64)
    requires
        s.books(),
        params_valid(s.params),
        s.has_lp(),
        user.bytes != PROTOCOL_LP_OWNER_SENTINEL,
    ensures
        s.take_deposit(user, amount, now) matches Ok((t, (i, _))) ==> i != PROTOCOL_LP_SLOT && t.has_lp()
            && t.accounts[PROTOCOL_LP_SLOT as int] == s.accounts[PROTOCOL_LP_SLOT as int],
{
    if let Ok((t, (i, fresh))) = s.take_deposit(user, amount, now) {
        first_where_is_first(0, s.params.max_accounts as int, |j: int| s.owned_by(j, user.bytes));
        take_deposit_law(s, user, amount, now);
        if fresh && i == PROTOCOL_LP_SLOT {
            deposit_raises_equity(s, i, amount as u128, now);
            let u = s.deposit(i, amount as u128, now)->Ok_0;
            assert(u.accounts[i as int].owner == PROTOCOL_LP_OWNER_SENTINEL);
            assert(PROTOCOL_LP_OWNER_SENTINEL@[0] != zero_key()[0]);
            assert(false);
        }
        deposit_law(s, i, amount as u128, now);
    }
}

/// A withdrawal takes its amount from the vault and from the user's slot; no
/// other account changes, and the books are kept.
pub proof fn give_withdrawal_law(s: EngineState, user: Pubkey, amount: u64, now: u64)
    requires
        s.books(),
    ensures
        s.give_withdrawal(user, amount, now) matches Ok(t) ==> {
            &&& t.books()
            &&& t.conserved()
            &&& t.vault.v == s.vault.v - amount
            &&& s.owner_slot(user.bytes) is Some
            &&& s.others_same(t, set![s.owner_slot(user.bytes)->0 as int])
        },
{
    if let Some(i) = s.owner_slot(user.bytes) {
        withdraw_law(s, i, amount as u128, s.last_oracle_price, now, 0, s.params.h_min, s.params.h_max);
    }
}

/// Funding the LP puts the amount into the vault, leaves an LP behind, and can be
/// done once.
pub proof fn fund_lp_law(s: EngineState, amount: u64, now: u64, again: u64, later: u64)
    requires
        s.books(),
    ensures
        s.fund_lp(amount, now) matches Ok(t) ==> {
            &&& t.books()
            &&& t.conserved()
            &&& t.vault.v <= MAX_VAULT_TVL
            &&& t.vault.v == s.vault.v + amount
            &&& s.others_same(t, set![PROTOCOL_LP_SLOT as int])
            &&& t.has_lp()
            &&& t.accounts[PROTOCOL_LP_SLOT as int].kind == Account::KIND_LP
            &&& t.fund_lp(again, later) == Err::<EngineState, PercolatorError>(PercolatorError::LpAlreadyBootstrapped)
        },
{
    if let Ok(t) = s.fund_lp(amount, now) {
        deposit_law(s, PROTOCOL_LP_SLOT, amount as u128, now);
        let u = s.deposit(PROTOCOL_LP_SLOT, amount as u128, now)->Ok_0;
        swap_keeps_books(u, t, PROTOCOL_LP_SLOT as int);
    }
}

/// An order moves nothing in or out of the vault, changes the user's account and
/// the LP's alone, and leaves both sides of the market with the same open
/// interest.
pub proof fn place_order_law(s: EngineState, user: Pubkey, side: Side, size: u64, price: u64, now: u64)
    requires
        s.books(),
    ensures
        s.place_order(user, side, size, price, now) matches Ok(t) ==> {
            &&& s.keeps(t, set![s.owner_slot(user.bytes)->0 as int, PROTOCOL_LP_SLOT as int])
            &&& t.conserved()
            &&& t.oi_balanced()
        },
{
    if let Some(i) = s.owner_slot(user.bytes) {
        let a = if side == Side::Long {
            i
        } else {
            PROTOCOL_LP_SLOT
        };
        let b = if side == Side::Long {
            PROTOCOL_LP_SLOT
        } else {
            i
        };
        trade_law(s, a, b, price, now, size as i128, price, 0, s.params.h_min, s.params.h_max);
        assert(set![a as int, b as int] =~= set![i as int, PROTOCOL_LP_SLOT as int]);
    }
}

/// A liquidation with its bounty keeps the books and conservation: the bounty
/// leaves the vault, the capital total and the account alike. No other account
/// changes.
pub proof fn seize_law(s: EngineState, victim: u16, price: u64, now: u64)
    requires
        s.books(),
    ensures
        s.seize(victim, price, now) matches Ok((t, bounty)) ==> {
            &&& t.books()
            &&& t.conserved()
            &&& t.oi_balanced()
            &&& t.vault.v == s.vault.v - bounty
            &&& s.others_same(t, set![victim as int])
        },
{
    if let Ok((t, bounty)) = s.seize(victim, price, now) {
        let i = victim as int;
        liquidate_law(s, victim, now, price, LiquidationPolicy::FullClose, 0, s.params.h_min, s.params.h_max);
        let u = s.liquidate(
            victim,
            now,
            price,
            LiquidationPolicy::FullClose,
            0,
            s.params.h_min,
            s.params.h_max,
        )->Ok_0.0;
        let m = EngineState { vault: t.vault, ..u };
        assert(m.books());
        swap_keeps_books(m, t, i);
    }
}

/// The crank bounty comes out of the insurance fund alone, never takes it below
/// its floor, and keeps conservation.
pub proof fn crank_bounty_law(s: EngineState)
    requires
        s.books(),
    ensures
        s.pay_crank() matches Ok((t, pay)) ==> {
            &&& t.books()
            &&& pay <= CRANK_BOUNTY
            &&& t.vault.v == s.vault.v - pay
            &&& t.insurance_fund.balance.v == s.insurance_fund.balance.v - pay
            &&& pay > 0 ==> t.insurance_fund.balance.v >= t.params.insurance_floor.v
            &&& t.conserved() == s.conserved()
            &&& t.accounts == s.accounts
        },
{
}

/// A sweep keeps the books, the vault, conservation, and the LP's account.
proof fn lemma_sweep(s: EngineState, cursor: int, steps: nat, max: int, now: u64, count: int)
    requires
        s.books(),
        0 <= cursor,
        0 < max <= MAX_ACCOUNTS,
    ensures
        ({
                let t = s.sweep(cursor, steps, max, now, count).0;
                &&& t.books()
                &&& t.vault == s.vault
                &&& t.c_tot.v + t.insurance_fund.balance.v == s.c_tot.v + s.insurance_fund.balance.v
                &&& t.accounts[PROTOCOL_LP_SLOT as int] == s.accounts[PROTOCOL_LP_SLOT as int]
        }),
    decreases steps,
{
    if steps > 0 {
        let c = (cursor + 1) % max;
        if c != PROTOCOL_LP_SLOT && s.reclaimable(c) {
            let (t, r) = s.reclaim(c as u16, now);
            reclaim_law(s, c as u16, now);
            let k = if r is Ok {
                count + 1
            } else {
                count
            };
            lemma_sweep(t, c, (steps - 1) as nat, max, now, k);
        } else {
            lemma_sweep(s, c, (steps - 1) as nat, max, now, count);
        }
    }
}

/// A crank keeps the books and conservation, and takes from the vault its bounty
/// alone. Reclaiming never touches the LP, and accruing touches no account.
pub proof fn crank_for_law(s: EngineState, kind: CrankKind, now: u64)
    requires
        s.books(),
        params_valid(s.params),
    ensures
        s.crank_for(kind, now) matches Ok((t, pay)) ==> {
            &&& t.books()
            &&& t.vault.v == s.vault.v - pay
            &&& pay <= CRANK_BOUNTY
            &&& s.conserved() ==> t.conserved()
            &&& kind == CrankKind::Funding ==> t.accounts == s.accounts
            &&& kind == CrankKind::Gc ==> t.accounts[PROTOCOL_LP_SLOT as int] == s.accounts[PROTOCOL_LP_SLOT as int]
        },
{
    if let Ok((t, pay)) = s.crank_for(kind, now) {
        match kind {
            CrankKind::Funding => {
                accrue_keeps_books(s, now, s.last_oracle_price, 0);
                let u = s.crank_funding(now)->Ok_0;
                reveal(EngineState::accrue);
                assert(u.accounts =~= s.accounts);
                assert(u.books());
                crank_bounty_law(u);
            },
            CrankKind::Gc => {
                let max = s.params.max_accounts as int;
                let steps = min_of(GC_CLOSE_BUDGET as int, max) as nat;
                lemma_sweep(s, s.gc_cursor as int, steps, max, now, 0);
                let u = s.crank_gc(now)->Ok_0;
                assert(u.books());
                crank_bounty_law(u);
            },
            CrankKind::AdlReset => {
                let i = s.anchor()->0;
                settle_account_law(s, i, s.last_oracle_price, now, 0, s.params.h_min, s.params.h_max);
                let u = s.crank_adl_reset(now)->Ok_0;
                crank_bounty_law(u);
            },
        }
    }
}

/// A deposit for a user leaves the market in order.
pub proof fn take_deposit_keeps_order(s: EngineState, user: Pubkey, amount: u64, now: u64)
    requires
        s.in_order(),
    ensures
        s.take_deposit(user, amount, now) matches Ok((t, _)) ==> t.in_order(),
{
    if let Ok((t, (i, fresh))) = s.take_deposit(user, amount, now) {
        take_deposit_law(s, user, amount, now);
        deposit_law(s, i, amount as u128, now);
        depositing_keeps_interest_backed(s, i, amount as u128, now);
        deposit_leaves_losses_paid(s, i, amount as u128, now);
        let u = s.deposit(i, amount as u128, now)->Ok_0;
        assert(u.same_interest(t));
        unchanged_interest_is_backed(u, t);
        assert(loss_paid(u.accounts[i as int]));
        lemma_others_paid(u, t, set![i as int]);
    }
}

/// A withdrawal for a user leaves the market in order.
pub proof fn give_withdrawal_keeps_order(s: EngineState, user: Pubkey, amount: u64, now: u64)
    requires
        s.in_order(),
    ensures
        s.give_withdrawal(user, amount, now) matches Ok(t) ==> t.in_order(),
{
    if let Some(i) = s.owner_slot(user.bytes) {
        let price = s.last_oracle_price;
        let h_min = s.params.h_min;
        let h_max = s.params.h_max;
        give_withdrawal_law(s, user, amount, now);
        withdrawing_keeps_interest_backed(s, i, amount as u128, price, now, 0, h_min, h_max);
        withdraw_leaves_losses_paid(s, i, amount as u128, price, now, 0, h_min, h_max);
    }
}

/// Funding the LP leaves the market in order.
pub proof fn fund_lp_keeps_order(s: EngineState, amount: u64, now: u64)
    requires
        s.in_order(),
    ensures
        s.fund_lp(amount, now) matches Ok(t) ==> t.in_order(),
{
    if let Ok(t) = s.fund_lp(amount, now) {
        let i = PROTOCOL_LP_SLOT;
        fund_lp_law(s, amount, now, amount, now);
        deposit_law(s, i, amount as u128, now);
        depositing_keeps_interest_backed(s, i, amount as u128, now);
        deposit_leaves_losses_paid(s, i, amount as u128, now);
        let u = s.deposit(i, amount as u128, now)->Ok_0;
        assert(u.same_interest(t));
        unchanged_interest_is_backed(u, t);
        assert(loss_paid(u.accounts[i as int]));
        lemma_others_paid(u, t, set![i as int]);
    }
}

/// An order leaves the market in order.
pub proof fn place_order_keeps_order(s: EngineState, user: Pubkey, side: Side, size: u64, price: u64, now: u64)
    requires
        s.in_order(),
    ensures
        s.place_order(user, side, size, price, now) matches Ok(t) ==> t.in_order(),
{
    place_order_law(s, user, side, size, price, now);
    if let Some(i) = s.owner_slot(user.bytes) {
        let lp = PROTOCOL_LP_SLOT;
        let h_min = s.params.h_min;
        let h_max = s.params.h_max;
        trading_keeps_interest_backed(s, i, lp, price, now, size as i128, price, 0, h_min, h_max);
        trading_keeps_interest_backed(s, lp, i, price, now, size as i128, price, 0, h_min, h_max);
        trade_leaves_losses_paid(s, i, lp, price, now, size as i128, price, 0, h_min, h_max);
        trade_leaves_losses_paid(s, lp, i, price, now, size as i128, price, 0, h_min, h_max);
    }
}

/// A liquidation with its bounty leaves the market in order.
pub proof fn seize_keeps_order(s: EngineState, victim: u16, price: u64, now: u64)
    requires
        s.in_order(),
    ensures
        s.seize(victim, price, now) matches Ok((t, _)) ==> t.in_order(),
{
    if let Ok((t, _)) = s.seize(victim, price, now) {
        let i = victim as int;
        let policy = LiquidationPolicy::FullClose;
        seize_law(s, victim, price, now);
        liquidating_keeps_interest_backed(s, victim, now, price, policy, 0, s.params.h_min, s.params.h_max);
        liquidate_leaves_losses_paid(s, victim, now, price, policy, 0, s.params.h_min, s.params.h_max);
        liquidate_law(s, victim, now, price, policy, 0, s.params.h_min, s.params.h_max);
        let u = s.liquidate(victim, now, price, policy, 0, s.params.h_min, s.params.h_max)->Ok_0.0;
        assert(u.same_interest(t));
        unchanged_interest_is_backed(u, t);
        assert(loss_paid(u.accounts[i]));
        lemma_others_paid(u, t, set![i]);
    }
}

proof fn lemma_sweep_order(s: EngineState, cursor: int, steps: nat, max: int, now: u64, count: int)
    requires
        s.in_order(),
        0 <= cursor,
        0 < max <= MAX_ACCOUNTS,
    ensures
        s.sweep(cursor, steps, max, now, count).0.in_order(),
    decreases steps,
{
    if steps > 0 {
        let c = (cursor + 1) % max;
        if c != PROTOCOL_LP_SLOT && s.reclaimable(c) {
            let (t, r) = s.reclaim(c as u16, now);
            reclaim_law(s, c as u16, now);
            reclaiming_keeps_interest_backed(s, c as u16, now);
            reclaim_leaves_losses_paid(s, c as u16, now);
            let k = if r is Ok {
                count + 1
            } else {
                count
            };
            lemma_sweep_order(t, c, (steps - 1) as nat, max, now, k);
        } else {
            lemma_sweep_order(s, c, (steps - 1) as nat, max, now, count);
        }
    }
}

/// A crank leaves the market in order.
pub proof fn crank_for_keeps_order(s: EngineState, kind: CrankKind, now: u64)
    requires
        s.in_order(),
    ensures
        s.crank_for(kind, now) matches Ok((t, _)) ==> t.in_order(),
{
    if let Ok((t, _)) = s.crank_for(kind, now) {
        crank_for_law(s, kind, now);
        let u = match kind {
            CrankKind::Funding => s.crank_funding(now)->Ok_0,
            CrankKind::Gc => s.crank_gc(now)->Ok_0,
            CrankKind::AdlReset => s.crank_adl_reset(now)->Ok_0,
        };
        match kind {
            CrankKind::Funding => {
                accrue_keeps_books(s, now, s.last_oracle_price, 0);
                reveal(EngineState::accrue);
                assert(s.same_interest(u));
                unchanged_interest_is_backed(s, u);
                lemma_others_paid(s, u, Set::empty());
            },
            CrankKind::Gc => {
                let max = s.params.max_accounts as int;
                let steps = min_of(GC_CLOSE_BUDGET as int, max) as nat;
                lemma_sweep_order(s, s.gc_cursor as int, steps, max, now, 0);
                let m = s.sweep(s.gc_cursor as int, steps, max, now, 0).0;
                assert(m.same_interest(u));
                unchanged_interest_is_backed(m, u);
                lemma_others_paid(m, u, Set::empty());
            },
            CrankKind::AdlReset => {
                let i = s.anchor()->0;
                let price = s.last_oracle_price;
                settle_account_law(s, i, price, now, 0, s.params.h_min, s.params.h_max);
                settling_keeps_interest_backed(s, i, price, now, 0, s.params.h_min, s.params.h_max);
                settle_account_leaves_losses_paid(s, i, price, now, 0, s.params.h_min, s.params.h_max);
            },
        }
        assert(u.same_interest(t));
        unchanged_interest_is_backed(u, t);
        assert(t.accounts =~= u.accounts);
        lemma_others_paid(u, t, Set::empty());
    }
}

/// The market in a slab of the program, where there is one, is in order.
pub open spec fn slab_in_order(program: Pubkey, slab: AccountView) -> bool {
    &&& holds_engine(program, slab)
    &&& slab_shape(program, slab) is Ok && live_header(slab) is Ok ==> slab_engine(slab.data@).in_order()
}

/// A deposit leaves the market in order, and what the vault gains is what the
/// user is asked to transfer.
pub proof fn deposit_instruction_law(program: Pubkey, acc: Seq<AccountView>, a: DepositArgs, now: u64)
    requires
        slab_in_order(program, acc[0]),
    ensures
        deposit_effect(program, acc, a, now) matches Ok(e) ==> {
            &&& e.engine.in_order()
            &&& e.tokens matches Some(x) && e.engine.vault.v == slab_engine(acc[0].data@).vault.v + x.amount
        },
{
    if let Ok(e) = deposit_effect(program, acc, a, now) {
        let s = slab_engine(acc[0].data@);
        take_deposit_law(s, acc[1].key, a.amount, now);
        take_deposit_keeps_order(s, acc[1].key, a.amount, now);
    }
}

/// A withdrawal leaves the market in order, and what the vault loses is what is
/// transferred out of it.
pub proof fn withdraw_instruction_law(program: Pubkey, acc: Seq<AccountView>, a: WithdrawArgs, now: u64)
    requires
        slab_in_order(program, acc[0]),
    ensures
        withdraw_effect(program, acc, a, now) matches Ok(e) ==> {
            &&& e.engine.in_order()
            &&& e.tokens matches Some(x) && e.engine.vault.v == slab_engine(acc[0].data@).vault.v - x.amount
        },
{
    if let Ok(e) = withdraw_effect(program, acc, a, now) {
        let s = slab_engine(acc[0].data@);
        give_withdrawal_law(s, acc[1].key, a.amount, now);
        give_withdrawal_keeps_order(s, acc[1].key, a.amount, now);
    }
}

/// Funding the LP leaves the market in order, and what the vault gains is what
/// the creator is asked to transfer.
pub proof fn bootstrap_instruction_law(program: Pubkey, acc: Seq<AccountView>, a: BootstrapLpArgs, now: u64)
    requires
        slab_in_order(program, acc[0]),
    ensures
        bootstrap_effect(program, acc, a, now) matches Ok(e) ==> {
            &&& e.engine.in_order()
            &&& e.tokens matches Some(x) && e.engine.vault.v == slab_engine(acc[0].data@).vault.v + x.amount
        },
{
    if let Ok(e) = bootstrap_effect(program, acc, a, now) {
        let s = slab_engine(acc[0].data@);
        fund_lp_law(s, a.amount, now, a.amount, now);
        fund_lp_keeps_order(s, a.amount, now);
    }
}

/// An order leaves the market in order and the vault as it was.
pub proof fn place_order_instruction_law(program: Pubkey, acc: Seq<AccountView>, a: PlaceOrderArgs, now: u64)
    requires
        slab_in_order(program, acc[0]),
    ensures
        place_order_effect(program, acc, a, now) matches Ok(e) ==> {
            &&& e.engine.in_order()
            &&& e.tokens is None
            &&& e.engine.vault == slab_engine(acc[0].data@).vault
        },
{
    if let Ok(e) = place_order_effect(program, acc, a, now) {
        let s = slab_engine(acc[0].data@);
        let h = live_header(acc[0])->Ok_0;
        let price = order_price(h, acc[2], a, now)->Ok_0;
        place_order_law(s, acc[1].key, order_side(a.side), a.size, price, now);
        place_order_keeps_order(s, acc[1].key, order_side(a.side), a.size, price, now);
    }
}

/// What is paid by an optional transfer.
pub open spec fn paid(x: Option<TokenTransfer>) -> int {
    match x {
        Some(t) => t.amount as int,
        None => 0,
    }
}

/// A liquidation leaves the market in order, and what the vault loses is the
/// bounty that is transferred out of it.
pub proof fn liquidate_instruction_law(program: Pubkey, acc: Seq<AccountView>, a: LiquidateArgs, now: u64)
    requires
        slab_in_order(program, acc[0]),
    ensures
        liquidate_effect(program, acc, a, now) matches Ok(e) ==> {
            &&& e.engine.in_order()
            &&& e.engine.vault.v == slab_engine(acc[0].data@).vault.v - paid(e.tokens)
        },
{
    if let Ok(e) = liquidate_effect(program, acc, a, now) {
        let s = slab_engine(acc[0].data@);
        let price = oracle_price(acc[3].data@)->Ok_0;
        seize_law(s, a.victim_slot, price, now);
        seize_keeps_order(s, a.victim_slot, price, now);
    }
}

/// A crank leaves the market in order, and what the vault loses is the bounty
/// that is transferred out of it.
pub proof fn crank_instruction_law(program: Pubkey, acc: Seq<AccountView>, a: CrankArgs, now: u64)
    requires
        slab_in_order(program, acc[0]),
    ensures
        crank_effect(program, acc, a, now) matches Ok(e) ==> {
            &&& e.engine.in_order()
            &&& e.engine.vault.v == slab_engine(acc[0].data@).vault.v - paid(e.tokens)
        },
{
    if let Ok(e) = crank_effect(program, acc, a, now) {
        let s = slab_engine(acc[0].data@);
        crank_for_law(s, CrankKind::of_number(a.kind)->0, now);
        crank_for_keeps_order(s, CrankKind::of_number(a.kind)->0, now);
    }
}

/// A market is in order from the moment its engine is put in place.
pub proof fn fresh_slab_is_in_order(data: Seq<u8>, h: SlabHeader, a: InitializeEngineArgs, now: u64)
    requires
        is_fresh_slab(data, h, a, now),
    ensures
        is_engine(engine_part(data)),
        slab_engine(data).in_order(),
{
    let s = engine_of(data.subrange(ENGINE_OFFSET as int, slab_size()));
    fresh_market_is_in_order(s, a.risk_params.as_params(), now, a.init_oracle_price);
    slab_is_read_as_written(data, h, s);
}

/// A slab is determined by its bytes: the header and the engine that one
/// instruction writes are those that the next one reads.
pub proof fn slab_is_read_as_written(data: Seq<u8>, h: SlabHeader, s: EngineState)
    requires
        is_slab(data, h, s),
        s.wf(),
    ensures
        header_of(data) == h,
        is_engine(engine_part(data)),
        slab_engine(data) == s,
{
    engine_of_image(data.subrange(ENGINE_OFFSET as int, slab_size()), s);
    header_image_is_unique(h, header_of(data));
}

/// What an instruction on a live market leaves in the slab can be read by the next
/// one: the slab holds the engine that the instruction was to leave.
pub proof fn next_instruction_finds_engine(
    program: Pubkey,
    slab: AccountView,
    effect: Effect,
    outcome: Outcome,
)
    requires
        effected(Ok(effect), Ok(outcome)),
        slab.data@ == outcome.slab_data@,
    ensures
        holds_engine(program, slab),
        slab_engine(slab.data@) == effect.engine,
        header_of(slab.data@) == effect.header,
{
    slab_is_read_as_written(outcome.slab_data@, effect.header, effect.engine);
}

/// So does setting up an engine.
pub proof fn first_instruction_finds_engine(
    program: Pubkey,
    slab: AccountView,
    h: SlabHeader,
    a: InitializeEngineArgs,
    now: u64,
)
    requires
        is_fresh_slab(slab.data@, h, a, now),
    ensures
        holds_engine(program, slab),
{
    fresh_slab_is_in_order(slab.data@, h, a, now);
}

/// A slab whose header was written cannot be created again.
pub proof fn slab_is_created_once(program: Pubkey, slab: AccountView, rent_exempt: bool, vault_bump: u8)
    requires
        slab.data@.len() >= SlabHeader::LEN,
        exists|j: int| 0 <= j < SlabHeader::LEN && #[trigger] slab.data@[j] != 0,
    ensures
        slab_is_new(program, slab, rent_exempt, vault_bump) is Err,
{
}

/// Parameters that the program accepts are ones that an engine can start with.
pub proof fn accepted_params_are_valid(p: RiskParamsArgs, price: u64)
    requires
        risk_params_ok(p, price),
    ensures
        params_valid(p.as_params()),
        0 < price <= MAX_ORACLE_PRICE,
{
}

/// Nobody is paid out of a vault without having signed, and nothing but a token
/// account of theirs, in the slab's mint, is paid to.
pub proof fn withdrawal_goes_to_signer(program: Pubkey, acc: Seq<AccountView>, a: WithdrawArgs, now: u64)
    requires
        acc.len() >= 7,
    ensures
        withdraw_effect(program, acc, a, now) matches Ok(e) ==> {
            &&& acc[1].is_signer
            &&& e.tokens matches Some(x) && x.amount == a.amount && x.destination == acc[2].key
            &&& acc[2].data@.subrange(0, 32) == e.header.mint.bytes@
            &&& acc[2].data@.subrange(32, 64) == acc[1].key.bytes@
        },
{
}

} // verus!
