//! What the instructions ask for and do, in plain terms.

use vstd::prelude::*;
use crate::address::{AccountView, Pubkey, TOKEN_PROGRAM_ID};
use crate::bytes::field_at;
use crate::engine::books::capital_within_total;
use crate::engine::laws::liquidate_law;
use crate::engine::margin_laws::{both_settled, trade_moves_worth_and_keeps_margin};
use crate::engine::worth::{trading_fee_on, worth};
use crate::model::EngineState;
use crate::oracle::state::feed_of;
use crate::program::checks::{order_price, risk_params_ok, TREASURY_PUBKEY};
use crate::program::error::PercolatorError;
use crate::program::instruction::{
    BootstrapLpArgs, CrankArgs, CrankKind, CreateMarketArgs, DepositArgs, LiquidateArgs, PlaceOrderArgs, RiskParamsArgs, WithdrawArgs,
};
use crate::program::operations::first_where_is_first;
use crate::program::processor::{
    bootstrap_effect, crank_effect, deposit_effect, liquidate_effect, market_created,
    place_order_effect, slab_engine, withdraw_effect, Outcome, TokenTransfer,
};
use crate::program::state::{header_of, vault_address, SlabHeader};
use crate::types::{LiquidationPolicy, Side};

verus! {

/// A buy order moves `size` from the LP to the user, and a sell order from the user
/// to the LP. It trades at the oracle price, so that neither gains: each loses no
/// more than the trading fee.
pub proof fn order_trades_with_the_lp(s: EngineState, user: Pubkey, side: Side, size: u64, price: u64, now: u64)
    requires
        s.in_order(),
    ensures
        s.place_order(user, side, size, price, now) matches Ok(t) ==> {
            let i = s.owner_slot(user.bytes)->0;
            let h_min = s.params.h_min;
            let h_max = s.params.h_max;
            let m = if side == Side::Long {
                both_settled(s, i, 0, price, now, 0, h_min, h_max)
            } else {
                both_settled(s, 0, i, price, now, 0, h_min, h_max)
            };
            let moved = if side == Side::Long {
                size as int
            } else {
                -(size as int)
            };
            let fee = trading_fee_on(s, size as i128, price);
            &&& s.owner_slot(user.bytes) is Some && i != 0
            &&& t.accounts[i as int].position_basis_q == m.effective_pos(i as int) + moved
            &&& t.accounts[0].position_basis_q == m.effective_pos(0) - moved
            &&& worth(m.accounts[i as int]) - fee <= worth(t.accounts[i as int]) <= worth(m.accounts[i as int])
            &&& worth(m.accounts[0]) - fee <= worth(t.accounts[0]) <= worth(m.accounts[0])
        },
{
    if let Ok(t) = s.place_order(user, side, size, price, now) {
        let i = s.owner_slot(user.bytes)->0;
        let h_min = s.params.h_min;
        let h_max = s.params.h_max;
        assert(size as i128 * (price - price) == 0) by (nonlinear_arith);
        reveal(EngineState::execute_trade);
        if side == Side::Long {
            trade_moves_worth_and_keeps_margin(s, i, 0, price, now, size as i128, price, 0, h_min, h_max);
        } else {
            trade_moves_worth_and_keeps_margin(s, 0, i, price, now, size as i128, price, 0, h_min, h_max);
        }
    }
}

/// The slot of a user is the first used one that is theirs.
pub proof fn owner_slot_is_the_first(s: EngineState, owner: [u8; 32])
    requires
        s.params.max_accounts <= 4096,
    ensures
        match s.owner_slot(owner) {
            Some(i) => {
                &&& i < s.params.max_accounts
                &&& s.used[i as int] && s.accounts[i as int].owner == owner
                &&& forall|j: int| 0 <= j < i ==> !(s.used[j] && #[trigger] s.accounts[j].owner == owner)
            },
            None => forall|j: int| 0 <= j < s.params.max_accounts ==> !(s.used[j] && #[trigger] s.accounts[j].owner == owner),
        },
{
    let p = |i: int| s.owned_by(i, owner);
    first_where_is_first(0, s.params.max_accounts as int, p);
    match s.owner_slot(owner) {
        Some(i) => {
            assert(p(i as int));
            assert forall|j: int| 0 <= j < i implies !(s.used[j] && #[trigger] s.accounts[j].owner == owner) by {
                assert(!p(j));
            }
        },
        None => {
            assert forall|j: int| 0 <= j < s.params.max_accounts implies !(s.used[j] && #[trigger] s.accounts[j].owner
                    == owner) by {
                assert(!p(j));
            }
        },
    }
}

/// An order goes through at the price in the first eight bytes of the market's own
/// oracle, where that is within what the order allows. A feed must have been updated
/// within the last hundred and fifty slots.
pub proof fn order_price_is_the_oracles(h: SlabHeader, oracle: AccountView, a: PlaceOrderArgs, now: u64)
    ensures
        order_price(h, oracle, a, now) matches Ok(p) ==> {
            &&& oracle.key == h.oracle
            &&& oracle.data@.len() >= 8
            &&& p == field_at(oracle.data@, 0, 8)
            &&& 0 < p <= 1_000_000_000_000
            &&& a.min_price <= p <= a.max_price
            &&& oracle.data@.len() >= 328 ==> feed_of(oracle.data@).initialized != 0 && now
                - feed_of(oracle.data@).last_update_slot <= 150
        },
        oracle.key == h.oracle && 8 <= oracle.data@.len() < 328 && 0 < field_at(oracle.data@, 0, 8) <= 1_000_000_000_000
            && a.min_price <= field_at(oracle.data@, 0, 8) <= a.max_price ==> order_price(h, oracle, a, now) is Ok,
{
}

/// The bounty of a liquidation is half a percent of the capital that the account had,
/// and at most what is left of it. It leaves the account, and only an account that
/// was liquidated pays one.
pub proof fn bounty_is_half_a_percent(s: EngineState, victim: u16, price: u64, now: u64)
    requires
        s.in_order(),
    ensures
        s.seize(victim, price, now) matches Ok((t, bounty)) ==> {
            let i = victim as int;
            let l = s.liquidate(
                victim,
                now,
                price,
                LiquidationPolicy::FullClose,
                0,
                s.params.h_min,
                s.params.h_max,
            )->Ok_0;
            let had = s.accounts[i].capital.v as int;
            let left = l.0.accounts[i].capital.v as int;
            &&& l.1
            &&& bounty == if had * 50 / 10_000 <= left {
                had * 50 / 10_000
            } else {
                left
            }
            &&& t.accounts[i].capital.v == left - bounty
            &&& t.vault.v == l.0.vault.v - bounty
            &&& t.c_tot.v == l.0.c_tot.v - bounty
            &&& t.insurance_fund == l.0.insurance_fund
        },
{
    if let Ok((t, bounty)) = s.seize(victim, price, now) {
        capital_within_total(s.accounts, victim as int);
        liquidate_law(s, victim, now, price, LiquidationPolicy::FullClose, 0, s.params.h_min, s.params.h_max);
    }
}

/// The bounty of a crank is a thousand, or what insurance holds above its floor if
/// that is less.
pub proof fn crank_bounty_is_a_thousand(s: EngineState)
    ensures
        s.pay_crank() matches Ok((t, pay)) ==> {
            let spare = s.insurance_fund.balance.v - s.params.insurance_floor.v;
            &&& pay == if spare <= 0 {
                0
            } else if spare < 1_000 {
                spare
            } else {
                1_000
            }
            &&& t.insurance_fund.balance.v == s.insurance_fund.balance.v - pay
            &&& t.vault.v == s.vault.v - pay
            &&& t.accounts == s.accounts && t.c_tot == s.c_tot
        },
{
}

/// A funding crank brings the market to the present slot at the last price, without
/// funding: nothing moves between the sides. It needs a slot to pass.
pub proof fn funding_crank_moves_no_worth(s: EngineState, now: u64)
    ensures
        s.crank_funding(now) matches Ok(t) ==> {
            &&& s.last_market_slot < now
            &&& t.last_market_slot == now && t.current_slot == now && t.last_crank_slot == now
            &&& t.last_oracle_price == s.last_oracle_price
            &&& t.adl_coeff_long == s.adl_coeff_long && t.adl_coeff_short == s.adl_coeff_short
            &&& t.f_long_num == s.f_long_num && t.f_short_num == s.f_short_num
            &&& t.accounts == s.accounts
        },
        now <= s.last_market_slot ==> s.crank_funding(now) == Err::<EngineState, PercolatorError>(PercolatorError::NothingToDo),
{
    reveal(EngineState::accrue);
    let dt = now - s.last_market_slot;
    assert(s.adl_mult_long * 0 == 0 && s.adl_mult_short * 0 == 0) by (nonlinear_arith);
    assert(s.fund_px_last * 0 * dt == 0) by (nonlinear_arith);
}

/// A reclaiming crank looks at the next thirty-two slots at most, and reclaims at
/// least one.
pub proof fn reclaiming_crank_frees_slots(s: EngineState, now: u64)
    ensures
        s.crank_gc(now) matches Ok(t) ==> s.sweep(
            s.gc_cursor as int,
            (if s.params.max_accounts < 32 {
                    s.params.max_accounts as int
                } else {
                    32
            }) as nat,
            s.params.max_accounts as int,
            now,
            0,
        ).2 > 0,
{
}

/// A reset crank changes the mode of a side, and settles the LP, or else the first
/// used account.
pub proof fn reset_crank_changes_a_mode(s: EngineState, now: u64)
    ensures
        s.crank_adl_reset(now) matches Ok(t) ==> {
            &&& t.side_mode_long != s.side_mode_long || t.side_mode_short != s.side_mode_short
            &&& s.anchor() matches Some(i) && s.settle_account(
                i,
                s.last_oracle_price,
                now,
                0,
                s.params.h_min,
                s.params.h_max,
            ) matches Ok(u) && u == t
            &&& s.used[0] ==> s.anchor() == Some(0u16)
        },
{
}

/// What an instruction that moves tokens was asked for: the holder signed, the slab
/// is the program's and set up, both token accounts are of its mint, the holder's is
/// the holder's own, and the vault is the one that the slab derives.
pub open spec fn tokens_are_in_order(
    program: Pubkey,
    slab: AccountView,
    holder: AccountView,
    holder_ta: AccountView,
    vault_ta: AccountView,
    token_program: AccountView,
) -> bool {
    let h = header_of(slab.data@);
    &&& holder.is_signer
    &&& slab.is_writable && holder_ta.is_writable && vault_ta.is_writable
    &&& slab.owner == program
    &&& h.initialized != 0
    &&& token_program.key.bytes == TOKEN_PROGRAM_ID
    &&& holder_ta.owner.bytes == TOKEN_PROGRAM_ID && vault_ta.owner.bytes == TOKEN_PROGRAM_ID
    &&& holder_ta.data@.len() == 165 && vault_ta.data@.len() == 165
    &&& holder_ta.data@.subrange(0, 32) == h.mint.bytes@ && vault_ta.data@.subrange(0, 32) == h.mint.bytes@
    &&& holder_ta.data@.subrange(32, 64) == holder.key.bytes@
    &&& vault_address(slab.key, h.vault_bump, program) == Some(vault_ta.key.bytes@)
}

/// The transfer that an instruction asks for.
pub open spec fn moves(
    x: Option<TokenTransfer>,
    from: AccountView,
    to: AccountView,
    by: AccountView,
    amount: int,
) -> bool {
    x matches Some(t) && t.source == from.key && t.destination == to.key && t.authority == by.key && t.amount == amount
}

/// A deposit moves its amount from the user's tokens to the vault, by the user; into
/// the market of that mint.
pub proof fn deposit_moves_tokens_in(program: Pubkey, acc: Seq<AccountView>, a: DepositArgs, now: u64)
    ensures
        deposit_effect(program, acc, a, now) matches Ok(e) ==> {
            &&& a.amount > 0
            &&& tokens_are_in_order(program, acc[0], acc[1], acc[2], acc[3], acc[5])
            &&& acc[4].key == header_of(acc[0].data@).mint
            &&& moves(e.tokens, acc[2], acc[3], acc[1], a.amount as int)
            &&& e.header == header_of(acc[0].data@)
            &&& slab_engine(acc[0].data@).take_deposit(acc[1].key, a.amount, now) matches Ok((t, _)) && e.engine == t
        },
{
}

/// A withdrawal moves its amount from the vault to the user's tokens, by the vault,
/// which signs with its bump and owns itself.
pub proof fn withdrawal_moves_tokens_out(program: Pubkey, acc: Seq<AccountView>, a: WithdrawArgs, now: u64)
    ensures
        withdraw_effect(program, acc, a, now) matches Ok(e) ==> {
            &&& a.amount > 0
            &&& tokens_are_in_order(program, acc[0], acc[1], acc[2], acc[3], acc[5])
            &&& acc[4].key == header_of(acc[0].data@).mint
            &&& acc[3].data@.subrange(32, 64) == acc[3].key.bytes@
            &&& moves(e.tokens, acc[3], acc[2], acc[3], a.amount as int)
            &&& e.tokens->0.vault_bump == Some(header_of(acc[0].data@).vault_bump)
            &&& e.header == header_of(acc[0].data@)
            &&& slab_engine(acc[0].data@).give_withdrawal(acc[1].key, a.amount, now) matches Ok(t) && e.engine == t
        },
{
}

/// Funding the LP moves its amount from the creator's tokens to the vault, by the
/// creator of the market alone.
pub proof fn bootstrap_moves_tokens_in(program: Pubkey, acc: Seq<AccountView>, a: BootstrapLpArgs, now: u64)
    ensures
        bootstrap_effect(program, acc, a, now) matches Ok(e) ==> {
            &&& a.amount > 0
            &&& tokens_are_in_order(program, acc[0], acc[1], acc[2], acc[3], acc[5])
            &&& acc[4].key == header_of(acc[0].data@).mint
            &&& acc[1].key == header_of(acc[0].data@).creator
            &&& moves(e.tokens, acc[2], acc[3], acc[1], a.amount as int)
            &&& e.header == header_of(acc[0].data@)
        },
{
}

/// An order needs the user to sign, moves no tokens, and buys where its side is zero
/// and sells where it is one.
pub proof fn order_is_the_users(program: Pubkey, acc: Seq<AccountView>, a: PlaceOrderArgs, now: u64)
    ensures
        place_order_effect(program, acc, a, now) matches Ok(e) ==> {
            &&& a.size > 0
            &&& a.side == 0 || a.side == 1
            &&& acc[1].is_signer && acc[0].is_writable
            &&& acc[0].owner == program
            &&& header_of(acc[0].data@).initialized != 0
            &&& e.tokens is None
            &&& acc[2].key == header_of(acc[0].data@).oracle
            &&& e.header == header_of(acc[0].data@)
            &&& slab_engine(acc[0].data@).place_order(
                acc[1].key,
                if a.side == 0 {
                    Side::Long
                } else {
                    Side::Short
                },
                a.size,
                field_at(acc[2].data@, 0, 8) as u64,
                now,
            ) matches Ok(t) && e.engine == t
        },
{
}

/// A liquidation pays its bounty from the vault to the liquidator, who signs. The LP
/// cannot be liquidated.
pub proof fn liquidation_pays_the_liquidator(program: Pubkey, acc: Seq<AccountView>, a: LiquidateArgs, now: u64)
    ensures
        liquidate_effect(program, acc, a, now) matches Ok(e) ==> {
            &&& a.victim_slot != 0
            &&& tokens_are_in_order(program, acc[0], acc[1], acc[2], acc[5], acc[6])
            &&& acc[5].data@.subrange(32, 64) == acc[5].key.bytes@
            &&& acc[3].key == header_of(acc[0].data@).oracle
            &&& e.header == header_of(acc[0].data@)
            &&& slab_engine(acc[0].data@).seize(a.victim_slot, field_at(acc[3].data@, 0, 8) as u64, now) matches Ok((t, bounty))
                && e.engine == t && (bounty as u64 == 0 ==> e.tokens is None) && (bounty as u64 > 0 ==> moves(
                    e.tokens,
                    acc[5],
                    acc[2],
                    acc[5],
                    bounty as u64 as int,
                ) && e.tokens->0.vault_bump == Some(header_of(acc[0].data@).vault_bump))
        },
{
}

/// A crank pays its bounty from the vault to the caller, who signs.
pub proof fn crank_pays_the_caller(program: Pubkey, acc: Seq<AccountView>, a: CrankArgs, now: u64)
    ensures
        crank_effect(program, acc, a, now) matches Ok(e) ==> {
            let kind = if a.kind == 0 {
                CrankKind::Funding
            } else if a.kind == 1 {
                CrankKind::Gc
            } else {
                CrankKind::AdlReset
            };
            &&& a.kind <= 2
            &&& tokens_are_in_order(program, acc[0], acc[1], acc[3], acc[4], acc[5])
            &&& acc[4].data@.subrange(32, 64) == acc[4].key.bytes@
            &&& e.header == header_of(acc[0].data@)
            &&& slab_engine(acc[0].data@).crank_for(kind, now) matches Ok((t, bounty)) && e.engine == t && (bounty == 0
                    ==> e.tokens is None) && (bounty > 0 ==> moves(e.tokens, acc[4], acc[3], acc[4], bounty as int) && e.tokens->0.vault_bump
                    == Some(header_of(acc[0].data@).vault_bump))
        },
{
}

/// Listing a market costs at least half a billion lamports, from the payer, who
/// signs, to the treasury. The header names mint, oracle and payer.
pub proof fn listing_pays_the_treasury(
    program: Pubkey,
    acc: Seq<AccountView>,
    a: CreateMarketArgs,
    rent_exempt: bool,
    o: Outcome,
)
    requires
        market_created(program, acc, a, rent_exempt, Ok(o)),
    ensures
        acc[0].is_signer,
        acc[4].key.bytes == TREASURY_PUBKEY,
        a.fee_lamports >= 500_000_000,
        rent_exempt,
        o.lamports matches Some(x) && x.source == acc[0].key && x.destination == acc[4].key && x.lamports == a.fee_lamports,
        o.tokens is None,
        ({
                let h = header_of(o.slab_data@);
                h.mint == acc[2].key && h.oracle == acc[3].key && h.creator == acc[0].key && h.vault_bump == a.vault_bump
                    && h.initialized == 0
        }),
        forall|j: int| 0 <= j < 104 ==> #[trigger] acc[1].data@[j] == 0,
{
}

/// What a new market may have for parameters, in numbers.
pub proof fn accepted_params_are_bounded(p: RiskParamsArgs, price: u64)
    ensures
        risk_params_ok(p, price) <==> {
            &&& 0 < price <= 1_000_000_000_000
            &&& 0 < p.max_accounts <= 4_096
            &&& 0 < p.max_active_positions_per_side <= p.max_accounts
            &&& 0 < p.initial_margin_bps <= 10_000
            &&& p.maintenance_margin_bps <= p.initial_margin_bps
            &&& p.trading_fee_bps <= 10_000
            &&& p.liquidation_fee_bps <= 10_000
            &&& 0 < p.min_nonzero_mm_req < p.min_nonzero_im_req <= p.min_initial_deposit
            &&& p.min_initial_deposit <= 10_000_000_000_000_000
            &&& p.min_liquidation_abs <= p.liquidation_fee_cap
            &&& p.liquidation_fee_cap <= 1_000_000_000_000_000_000_000_000_000_000_000_000
            &&& p.insurance_floor <= 10_000_000_000_000_000
            &&& p.h_min <= p.h_max && 0 < p.h_max
            &&& p.resolve_price_deviation_bps <= 10_000
            &&& 0 < p.max_accrual_dt_slots <= p.min_funding_lifetime_slots
            &&& p.max_abs_funding_e9_per_slot <= 1_000_000_000
            &&& 1_000_000_000_000_000_000_000_000_000 * p.max_abs_funding_e9_per_slot * p.min_funding_lifetime_slots <= i128::MAX
        },
{
    let r = p.max_abs_funding_e9_per_slot as int;
    let x = 1_000_000_000_000_000_000_000_000_000 * r;
    let a = p.max_accrual_dt_slots as int;
    let b = p.min_funding_lifetime_slots as int;
    if a <= b {
        assert(x * a <= x * b) by (nonlinear_arith)
            requires
                0 <= x,
                a <= b,
            ;
    }
}

} // verus!
