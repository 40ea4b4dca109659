//! Every engine that can be reached. Whatever operations are called on a new
//! engine, in whatever order, as long as all of them succeed, the engine is in
//! order afterwards: funds are conserved, and both sides of the market have the
//! same open interest.

use vstd::prelude::*;
use crate::address::Pubkey;
use crate::engine::books::{accrue_keeps_books, swap_keeps_books};
use crate::engine::interest_laws::{
    closing_keeps_interest_backed, collecting_keeps_interest_backed,
    converting_keeps_interest_backed, cranking_keeps_interest_backed,
    depositing_keeps_interest_backed, liquidating_keeps_interest_backed,
    payments_keep_interest_backed, reclaiming_keeps_interest_backed,
    resolving_keeps_interest_backed, settling_keeps_interest_backed,
    trading_keeps_interest_backed, winding_down_keeps_interest_backed,
    withdrawing_keeps_interest_backed,
};
use crate::engine::laws::{
    charge_account_law, close_account_law, close_terminal_law, convert_law, crank_law,
    deposit_law, force_close_law, garbage_law, later_keeps_books, liquidate_law,
    pay_fee_debt_law, reclaim_law, reconcile_law, resolve_law, settle_account_law,
    settle_flat_law, sync_account_fee_law, top_up_law, trade_law, withdraw_law,
};
use crate::engine::liquidation::Candidate;
use crate::engine::losses::{
    close_account_leaves_losses_paid, collect_garbage_leaves_losses_paid,
    convert_leaves_losses_paid, crank_leaves_losses_paid, deposit_leaves_losses_paid,
    flat_settlement_takes_no_capital, lemma_others_paid, liquidate_leaves_losses_paid, loss_paid,
    payments_leave_losses_paid, reclaim_leaves_losses_paid, settle_account_leaves_losses_paid,
    trade_leaves_losses_paid, winding_down_leaves_losses_paid, withdraw_leaves_losses_paid,
};
use crate::engine::open_interest::{reopened_side_is_backed, unchanged_interest_is_backed};
use crate::engine::order::fresh_market_is_in_order;
use crate::model::EngineState;
use crate::program::instruction::CrankKind;
use crate::program::laws::{
    crank_for_keeps_order, fund_lp_keeps_order, give_withdrawal_keeps_order,
    place_order_keeps_order, seize_keeps_order, take_deposit_keeps_order,
};
use crate::types::{LiquidationPolicy, ResolveMode, RiskParams, Side};
use crate::wide_math::min_of;

verus! {

/// What a live instruction is told about the market: the oracle price, the slot,
/// the funding rate, and the admission horizons.
pub struct Market {
    pub price: u64,
    pub now: u64,
    pub rate: i128,
    pub h_min: u64,
    pub h_max: u64,
}

/// A call of an operation that changes the engine, with its arguments.
pub enum Call {
    SetOwner { idx: u16, owner: [u8; 32] },
    Deposit { idx: u16, amount: u128, now: u64 },
    Withdraw { idx: u16, amount: u128, market: Market },
    SettleAccount { idx: u16, market: Market },
    ConvertReleasedPnl { idx: u16, x: u128, market: Market },
    CloseAccount { idx: u16, market: Market },
    ReclaimEmptyAccount { idx: u16, now: u64 },
    GarbageCollectDust,
    TopUpInsuranceFund { amount: u128, now: u64 },
    DepositFeeCredits { idx: u16, amount: u128, now: u64 },
    ChargeAccountFee { idx: u16, fee: u128, now: u64 },
    SettleFlatNegativePnl { idx: u16, now: u64 },
    SyncAccountFee { idx: u16, now: u64, rate: u128 },
    AdvanceSlot { slots: u64 },
    AccrueMarketTo { now: u64, price: u64, rate: i128 },
    FinalizeSideReset { side: Side },
    ExecuteTrade { a: u16, b: u16, size: i128, exec_price: u64, market: Market },
    Liquidate { idx: u16, policy: LiquidationPolicy, market: Market },
    KeeperCrank { candidates: Seq<Candidate>, max: u16, market: Market },
    ResolveMarket { mode: ResolveMode, resolved: u64, live: u64, now: u64, rate: i128 },
    ReconcileResolved { idx: u16 },
    CloseResolvedTerminal { idx: u16 },
    ForceCloseResolved { idx: u16 },
    TakeDeposit { user: Pubkey, amount: u64, now: u64 },
    GiveWithdrawal { user: Pubkey, amount: u64, now: u64 },
    FundLp { amount: u64, now: u64 },
    PlaceOrder { user: Pubkey, side: Side, size: u64, price: u64, now: u64 },
    Seize { victim: u16, price: u64, now: u64 },
    CrankFor { kind: CrankKind, now: u64 },
}

/// The state of a result with a state and something else.
pub open spec fn first_of<T, E>(r: Result<(EngineState, T), E>) -> Option<EngineState> {
    match r {
        Ok(v) => Some(v.0),
        Err(_) => None,
    }
}

/// The state of a result.
pub open spec fn state_of<E>(r: Result<EngineState, E>) -> Option<EngineState> {
    match r {
        Ok(t) => Some(t),
        Err(_) => None,
    }
}

impl EngineState {
    /// The state that a call leaves, where it succeeds.
    pub open spec fn after(self, call: Call) -> Option<EngineState> {
        match call {
            Call::SetOwner { idx, owner } => state_of(self.set_owner(idx, owner)),
            Call::Deposit { idx, amount, now } => state_of(self.deposit(idx, amount, now)),
            Call::Withdraw { idx, amount, market: m } => state_of(
                self.withdraw(idx, amount, m.price, m.now, m.rate, m.h_min, m.h_max),
            ),
            Call::SettleAccount { idx, market: m } => state_of(
                self.settle_account(idx, m.price, m.now, m.rate, m.h_min, m.h_max),
            ),
            Call::ConvertReleasedPnl { idx, x, market: m } => state_of(
                self.convert_released(idx, x, m.price, m.now, m.rate, m.h_min, m.h_max),
            ),
            Call::CloseAccount { idx, market: m } => first_of(
                self.close_account(idx, m.now, m.price, m.rate, m.h_min, m.h_max),
            ),
            Call::ReclaimEmptyAccount { idx, now } => match self.reclaim(idx, now).1 {
                Ok(_) => Some(self.reclaim(idx, now).0),
                Err(_) => None,
            },
            Call::GarbageCollectDust => first_of(self.collect_garbage()),
            Call::TopUpInsuranceFund { amount, now } => first_of(self.top_up(amount, now)),
            Call::DepositFeeCredits { idx, amount, now } => state_of(self.pay_fee_debt(idx, amount, now)),
            Call::ChargeAccountFee { idx, fee, now } => state_of(self.charge_account(idx, fee, now)),
            Call::SettleFlatNegativePnl { idx, now } => state_of(self.settle_flat(idx, now)),
            Call::SyncAccountFee { idx, now, rate } => state_of(self.sync_account_fee(idx, now, rate)),
            Call::AdvanceSlot { slots } => Some(
                self.at_slot(min_of(self.current_slot + slots, u64::MAX as int) as u64),
            ),
            Call::AccrueMarketTo { now, price, rate } => state_of(self.accrue(now, price, rate)),
            Call::FinalizeSideReset { side } => state_of(self.finish_reset(side)),
            Call::ExecuteTrade { a, b, size, exec_price, market: m } => state_of(
                self.execute_trade(a, b, m.price, m.now, size, exec_price, m.rate, m.h_min, m.h_max),
            ),
            Call::Liquidate { idx, policy, market: m } => first_of(
                self.liquidate(idx, m.now, m.price, policy, m.rate, m.h_min, m.h_max),
            ),
            Call::KeeperCrank { candidates, max, market: m } => first_of(
                self.keeper_crank(m.now, m.price, candidates, max, m.rate, m.h_min, m.h_max),
            ),
            Call::ResolveMarket { mode, resolved, live, now, rate } => state_of(
                self.resolve_market(mode, resolved, live, now, rate),
            ),
            Call::ReconcileResolved { idx } => state_of(self.reconcile(idx)),
            Call::CloseResolvedTerminal { idx } => first_of(self.close_terminal(idx)),
            Call::ForceCloseResolved { idx } => first_of(self.force_close(idx)),
            Call::TakeDeposit { user, amount, now } => first_of(self.take_deposit(user, amount, now)),
            Call::GiveWithdrawal { user, amount, now } => state_of(self.give_withdrawal(user, amount, now)),
            Call::FundLp { amount, now } => state_of(self.fund_lp(amount, now)),
            Call::PlaceOrder { user, side, size, price, now } => state_of(
                self.place_order(user, side, size, price, now),
            ),
            Call::Seize { victim, price, now } => first_of(self.seize(victim, price, now)),
            Call::CrankFor { kind, now } => first_of(self.crank_for(kind, now)),
        }
    }

    /// The state that calls leave, one after the other, where all succeed.
    pub open spec fn after_all(self, calls: Seq<Call>) -> Option<EngineState>
        decreases calls.len(),
    {
        if calls.len() == 0 {
            Some(self)
        } else {
            match self.after_all(calls.drop_last()) {
                Some(s) => s.after(calls.last()),
                None => None,
            }
        }
    }
}

/// A new engine leads to `s` by calls that all succeed.
pub open spec fn is_reachable(s: EngineState) -> bool {
    exists|fresh: EngineState, p: RiskParams, slot: u64, price: u64, calls: Seq<Call>|
    leads_to(fresh, p, slot, price, calls, s)
}

/// The calls lead from the engine `fresh`, which is new, to `s`.
pub open spec fn leads_to(
    fresh: EngineState,
    p: RiskParams,
    slot: u64,
    price: u64,
    calls: Seq<Call>,
    s: EngineState,
) -> bool {
    &&& fresh.is_fresh(p, slot, price)
    &&& fresh.wf()
    &&& fresh.after_all(calls) == Some(s)
}

proof fn lemma_trading_call(s: EngineState, call: Call)
    requires
        s.in_order(),
        call is Withdraw || call is SettleAccount || call is ConvertReleasedPnl || call is CloseAccount || call is ExecuteTrade
            || call is Liquidate || call is KeeperCrank,
    ensures
        s.after(call) matches Some(t) ==> t.in_order(),
{
    match call {
        Call::Withdraw { idx, amount, market: m } => {
            withdraw_law(s, idx, amount, m.price, m.now, m.rate, m.h_min, m.h_max);
            withdrawing_keeps_interest_backed(s, idx, amount, m.price, m.now, m.rate, m.h_min, m.h_max);
            withdraw_leaves_losses_paid(s, idx, amount, m.price, m.now, m.rate, m.h_min, m.h_max);
        },
        Call::SettleAccount { idx, market: m } => {
            settle_account_law(s, idx, m.price, m.now, m.rate, m.h_min, m.h_max);
            settling_keeps_interest_backed(s, idx, m.price, m.now, m.rate, m.h_min, m.h_max);
            settle_account_leaves_losses_paid(s, idx, m.price, m.now, m.rate, m.h_min, m.h_max);
        },
        Call::ConvertReleasedPnl { idx, x, market: m } => {
            convert_law(s, idx, x, m.price, m.now, m.rate, m.h_min, m.h_max);
            converting_keeps_interest_backed(s, idx, x, m.price, m.now, m.rate, m.h_min, m.h_max);
            convert_leaves_losses_paid(s, idx, x, m.price, m.now, m.rate, m.h_min, m.h_max);
        },
        Call::CloseAccount { idx, market: m } => {
            close_account_law(s, idx, m.now, m.price, m.rate, m.h_min, m.h_max);
            closing_keeps_interest_backed(s, idx, m.now, m.price, m.rate, m.h_min, m.h_max);
            close_account_leaves_losses_paid(s, idx, m.now, m.price, m.rate, m.h_min, m.h_max);
        },
        Call::ExecuteTrade { a, b, size, exec_price, market: m } => {
            trade_law(s, a, b, m.price, m.now, size, exec_price, m.rate, m.h_min, m.h_max);
            trading_keeps_interest_backed(s, a, b, m.price, m.now, size, exec_price, m.rate, m.h_min, m.h_max);
            trade_leaves_losses_paid(s, a, b, m.price, m.now, size, exec_price, m.rate, m.h_min, m.h_max);
        },
        Call::Liquidate { idx, policy, market: m } => {
            liquidate_law(s, idx, m.now, m.price, policy, m.rate, m.h_min, m.h_max);
            liquidating_keeps_interest_backed(s, idx, m.now, m.price, policy, m.rate, m.h_min, m.h_max);
            liquidate_leaves_losses_paid(s, idx, m.now, m.price, policy, m.rate, m.h_min, m.h_max);
        },
        Call::KeeperCrank { candidates, max, market: m } => {
            crank_law(s, m.now, m.price, candidates, max, m.rate, m.h_min, m.h_max);
            cranking_keeps_interest_backed(s, m.now, m.price, candidates, max, m.rate, m.h_min, m.h_max);
            crank_leaves_losses_paid(s, m.now, m.price, candidates, max, m.rate, m.h_min, m.h_max);
        },
        _ => {},
    }
}

proof fn lemma_account_call(s: EngineState, call: Call)
    requires
        s.in_order(),
        call is Deposit || call is ReclaimEmptyAccount || call is GarbageCollectDust || call is TopUpInsuranceFund
            || call is DepositFeeCredits || call is ChargeAccountFee || call is SettleFlatNegativePnl || call is SyncAccountFee,
    ensures
        s.after(call) matches Some(t) ==> t.in_order(),
{
    match call {
        Call::Deposit { idx, amount, now } => {
            deposit_law(s, idx, amount, now);
            depositing_keeps_interest_backed(s, idx, amount, now);
            deposit_leaves_losses_paid(s, idx, amount, now);
        },
        Call::ReclaimEmptyAccount { idx, now } => {
            reclaim_law(s, idx, now);
            reclaiming_keeps_interest_backed(s, idx, now);
            reclaim_leaves_losses_paid(s, idx, now);
        },
        Call::GarbageCollectDust => {
            garbage_law(s);
            collecting_keeps_interest_backed(s);
            collect_garbage_leaves_losses_paid(s);
        },
        Call::TopUpInsuranceFund { amount, now } => {
            top_up_law(s, amount, now);
            payments_keep_interest_backed(s, 0, amount, now);
            payments_leave_losses_paid(s, 0, amount, now);
        },
        Call::DepositFeeCredits { idx, amount, now } => {
            pay_fee_debt_law(s, idx, amount, now);
            payments_keep_interest_backed(s, idx, amount, now);
            payments_leave_losses_paid(s, idx, amount, now);
        },
        Call::ChargeAccountFee { idx, fee, now } => {
            charge_account_law(s, idx, fee, now);
            payments_keep_interest_backed(s, idx, fee, now);
            payments_leave_losses_paid(s, idx, fee, now);
        },
        Call::SettleFlatNegativePnl { idx, now } => {
            settle_flat_law(s, idx, now);
            payments_keep_interest_backed(s, idx, 0, now);
            payments_leave_losses_paid(s, idx, 0, now);
        },
        Call::SyncAccountFee { idx, now, rate } => {
            sync_account_fee_law(s, idx, now, rate);
            payments_keep_interest_backed(s, idx, rate, now);
            payments_leave_losses_paid(s, idx, rate, now);
        },
        _ => {},
    }
}

proof fn lemma_small_call(s: EngineState, call: Call)
    requires
        s.in_order(),
        call is SetOwner || call is AdvanceSlot || call is AccrueMarketTo || call is FinalizeSideReset,
    ensures
        s.after(call) matches Some(t) ==> t.in_order(),
{
    if let Some(t) = s.after(call) {
        match call {
            Call::SetOwner { idx, owner } => {
                let i = idx as int;
                swap_keeps_books(s, t, i);
                assert(loss_paid(s.accounts[i]));
                lemma_others_paid(s, t, set![i]);
                assert(s.same_interest(t));
                unchanged_interest_is_backed(s, t);
            },
            Call::AdvanceSlot { slots } => {
                if s.is_live() {
                    later_keeps_books(s, t.current_slot);
                }
                lemma_others_paid(s, t, Set::empty());
                assert(s.same_interest(t));
                unchanged_interest_is_backed(s, t);
            },
            Call::AccrueMarketTo { now, price, rate } => {
                accrue_keeps_books(s, now, price, rate);
                reveal(EngineState::accrue);
                lemma_others_paid(s, t, Set::empty());
                assert(s.same_interest(t));
                unchanged_interest_is_backed(s, t);
            },
            Call::FinalizeSideReset { side } => {
                assert(t.books());
                lemma_others_paid(s, t, Set::empty());
                reopened_side_is_backed(s, side);
            },
            _ => {},
        }
    }
}

proof fn lemma_resolution_call(s: EngineState, call: Call)
    requires
        s.in_order(),
        call is ResolveMarket || call is ReconcileResolved || call is CloseResolvedTerminal || call is ForceCloseResolved,
    ensures
        s.after(call) matches Some(t) ==> t.in_order(),
{
    match call {
        Call::ResolveMarket { mode, resolved, live, now, rate } => {
            resolve_law(s, mode, resolved, live, now, rate);
            resolving_keeps_interest_backed(s, mode, resolved, live, now, rate);
            if let Some(t) = s.after(call) {
                lemma_others_paid(s, t, Set::empty());
            }
        },
        Call::ReconcileResolved { idx } => {
            reconcile_law(s, idx);
            winding_down_keeps_interest_backed(s, idx);
            winding_down_leaves_losses_paid(s, idx);
        },
        Call::CloseResolvedTerminal { idx } => {
            close_terminal_law(s, idx);
            winding_down_keeps_interest_backed(s, idx);
            winding_down_leaves_losses_paid(s, idx);
        },
        Call::ForceCloseResolved { idx } => {
            force_close_law(s, idx);
            winding_down_keeps_interest_backed(s, idx);
            winding_down_leaves_losses_paid(s, idx);
        },
        _ => {},
    }
}

/// Every call that succeeds leaves the engine in order.
pub proof fn call_keeps_order(s: EngineState, call: Call)
    requires
        s.in_order(),
    ensures
        s.after(call) matches Some(t) ==> t.in_order(),
{
    match call {
        Call::SetOwner { .. } => lemma_small_call(s, call),
        Call::AdvanceSlot { .. } => lemma_small_call(s, call),
        Call::AccrueMarketTo { .. } => lemma_small_call(s, call),
        Call::FinalizeSideReset { .. } => lemma_small_call(s, call),
        Call::Withdraw { .. } => lemma_trading_call(s, call),
        Call::SettleAccount { .. } => lemma_trading_call(s, call),
        Call::ConvertReleasedPnl { .. } => lemma_trading_call(s, call),
        Call::CloseAccount { .. } => lemma_trading_call(s, call),
        Call::ExecuteTrade { .. } => lemma_trading_call(s, call),
        Call::Liquidate { .. } => lemma_trading_call(s, call),
        Call::KeeperCrank { .. } => lemma_trading_call(s, call),
        Call::ResolveMarket { .. } => lemma_resolution_call(s, call),
        Call::ReconcileResolved { .. } => lemma_resolution_call(s, call),
        Call::CloseResolvedTerminal { .. } => lemma_resolution_call(s, call),
        Call::ForceCloseResolved { .. } => lemma_resolution_call(s, call),
        Call::TakeDeposit { user, amount, now } => take_deposit_keeps_order(s, user, amount, now),
        Call::GiveWithdrawal { user, amount, now } => give_withdrawal_keeps_order(s, user, amount, now),
        Call::FundLp { amount, now } => fund_lp_keeps_order(s, amount, now),
        Call::PlaceOrder { user, side, size, price, now } => place_order_keeps_order(s, user, side, size, price, now),
        Call::Seize { victim, price, now } => seize_keeps_order(s, victim, price, now),
        Call::CrankFor { kind, now } => crank_for_keeps_order(s, kind, now),
        _ => lemma_account_call(s, call),
    }
}

/// Calls that all succeed leave an engine in order that was in order.
pub proof fn calls_keep_order(s: EngineState, calls: Seq<Call>)
    requires
        s.in_order(),
    ensures
        s.after_all(calls) matches Some(t) ==> t.in_order(),
    decreases calls.len(),
{
    if calls.len() > 0 {
        calls_keep_order(s, calls.drop_last());
        if let Some(m) = s.after_all(calls.drop_last()) {
            call_keeps_order(m, calls.last());
        }
    }
}

/// Every engine that can be reached is in order.
pub proof fn reachable_engine_is_in_order(s: EngineState)
    requires
        is_reachable(s),
    ensures
        s.in_order(),
{
    let (fresh, p, slot, price, calls) = choose|
    fresh: EngineState,
    p: RiskParams,
    slot: u64,
    price: u64,
    calls: Seq<Call>,
    |
    leads_to(fresh, p, slot, price, calls, s);
    fresh_market_is_in_order(fresh, p, slot, price);
    calls_keep_order(fresh, calls);
}

/// Funds are conserved across all operations: in every engine that can be reached,
/// the vault holds at least all capital and the insurance fund, and both sides of
/// the market have the same open interest.
pub proof fn funds_are_always_conserved(s: EngineState)
    requires
        is_reachable(s),
    ensures
        s.vault.v >= s.c_tot.v + s.insurance_fund.balance.v,
        s.oi_eff_long_q == s.oi_eff_short_q,
{
    reachable_engine_is_in_order(s);
}

/// In every engine that can be reached, settling a flat account that owes is
/// absorbed by the insurance fund alone.
pub proof fn flat_settlement_is_absorbed_by_insurance(s: EngineState, idx: u16, now: u64)
    requires
        is_reachable(s),
        s.in_use(idx as int),
        s.accounts[idx as int].pnl < 0,
    ensures
        s.settle_flat(idx, now) matches Ok(t) ==> {
            &&& t.accounts[idx as int].pnl == 0
            &&& t.accounts[idx as int].capital == s.accounts[idx as int].capital
            &&& t.c_tot == s.c_tot
            &&& t.insurance_fund.balance.v == s.insurance_fund.balance.v - s.insured(-(s.accounts[idx as int].pnl as int))
        },
{
    reachable_engine_is_in_order(s);
    flat_settlement_takes_no_capital(s, idx, now);
}

} // verus!
