//! When instructions are accepted, and what a refusal says.

use vstd::prelude::*;
use crate::address::{is_token_account, AccountView, Pubkey, SYSTEM_PROGRAM_ID, TOKEN_PROGRAM_ID};
use crate::bytes::field_at;
use crate::model::EngineState;
use crate::oracle::state::feed_of;
use crate::program::checks::{
    live_header, oracle_price, order_ok, order_price, risk_params_ok, slab_size, token_accounts_ok, vault_ok, victim_ok,
    TREASURY_PUBKEY,
};
use crate::program::error::PercolatorError;
use crate::program::instruction::{
    BootstrapLpArgs, CrankArgs, CrankKind, CreateMarketArgs, CreateSlabArgs, DepositArgs, InitializeEngineArgs,
    LiquidateArgs, PlaceOrderArgs, WithdrawArgs,
};
use crate::program::operations::PROTOCOL_LP_OWNER_SENTINEL;
use crate::program::plain_laws::tokens_are_in_order;
use crate::program::processor::{
    bootstrap_effect, crank_effect, deposit_effect, engine_initialized, liquidate_effect, market_created,
    place_order_effect, slab_created, slab_engine, withdraw_effect, Outcome,
};
use crate::program::state::{header_of, vault_address, SlabHeader};
use crate::types::{Account, RiskError, Side, SideMode};

verus! {

/// The accounts of an instruction that moves tokens have the shapes they need.
pub open spec fn shapes_fit(slab: AccountView, holder_ta: AccountView, vault_ta: AccountView) -> bool {
    &&& slab.data@.len() == slab_size()
    &&& is_token_account(holder_ta.data@)
    &&& is_token_account(vault_ta.data@)
}

/// The checks on accounts pass for those that are in order, and no others. Each
/// refusal names the first thing that is wrong.
pub proof fn accounts_pass_when_in_order(
    program: Pubkey,
    slab: AccountView,
    holder: AccountView,
    holder_ta: AccountView,
    vault_ta: AccountView,
    token_program: AccountView,
)
    ensures
        ({
                let h = header_of(slab.data@);
                let first = token_accounts_ok(program, slab, holder, holder_ta, vault_ta, token_program);
                let second = vault_ok(program, slab, h, holder, holder_ta, vault_ta, false);
                let paying = vault_ok(program, slab, h, holder, holder_ta, vault_ta, true);
                let writable = slab.is_writable && holder_ta.is_writable && vault_ta.is_writable;
                let derived = vault_address(slab.key, h.vault_bump, program) == Some(vault_ta.key.bytes@);
                let tokens = shapes_fit(slab, holder_ta, vault_ta) && holder_ta.owner.bytes == TOKEN_PROGRAM_ID && vault_ta.owner.bytes
                    == TOKEN_PROGRAM_ID;
                &&& first is Ok && live_header(slab) is Ok && second is Ok <==> tokens_are_in_order(
                    program,
                    slab,
                    holder,
                    holder_ta,
                    vault_ta,
                    token_program,
                ) && shapes_fit(slab, holder_ta, vault_ta)
                &&& paying is Ok <==> second is Ok && vault_ta.data@.subrange(32, 64) == vault_ta.key.bytes@
                &&& !holder.is_signer ==> first == Err::<(), _>(PercolatorError::MissingSigner)
                &&& holder.is_signer && !writable ==> first == Err::<(), _>(PercolatorError::AccountNotWritable)
                &&& holder.is_signer && writable && slab.owner != program ==> first == Err::<(), _>(PercolatorError::SlabNotInitialized)
                &&& holder.is_signer && writable && slab.owner == program && slab.data@.len() != slab_size() ==> first == Err::<(), _>(
                    PercolatorError::SlabSizeMismatch,
                )
                &&& holder.is_signer && writable && slab.owner == program && slab.data@.len() == slab_size()
                    && token_program.key.bytes != TOKEN_PROGRAM_ID ==> first == Err::<(), _>(PercolatorError::InvalidTokenProgram)
                &&& h.initialized == 0 <==> live_header(slab) == Err::<SlabHeader, _>(PercolatorError::SlabNotInitialized)
                &&& !derived ==> second == Err::<(), _>(PercolatorError::VaultPdaMismatch)
                &&& slab.data@.len() == slab_size() && derived && !tokens ==> second == Err::<(), _>(
                    PercolatorError::TokenAccountWrongOwner,
                )
                &&& derived && tokens && (holder_ta.data@.subrange(0, 32) != h.mint.bytes@ || vault_ta.data@.subrange(0, 32)
                        != h.mint.bytes@) ==> second == Err::<(), _>(PercolatorError::TokenAccountWrongMint)
                &&& derived && tokens && holder_ta.data@.subrange(0, 32) == h.mint.bytes@ && vault_ta.data@.subrange(0, 32)
                    == h.mint.bytes@ && holder_ta.data@.subrange(32, 64) != holder.key.bytes@ ==> second == Err::<(), _>(
                    PercolatorError::TokenAccountWrongOwner,
                )
                &&& second is Ok && vault_ta.data@.subrange(32, 64) != vault_ta.key.bytes@ ==> paying == Err::<(), _>(
                    PercolatorError::VaultPdaMismatch,
                )
        }),
{
}

/// An order's price is there when the oracle is the market's, its price is not zero
/// and not too high, its feed was set up and is fresh, and the price is within the
/// order's limits; no other order has one. Only the limits are refused as slippage.
pub proof fn order_has_a_price(h: SlabHeader, oracle: AccountView, a: PlaceOrderArgs, now: u64)
    ensures
        ({
                let data = oracle.data@;
                let p = field_at(data, 0, 8);
                let fresh = data.len() >= 328 ==> feed_of(data).initialized != 0 && now <= feed_of(data).last_update_slot + 150;
                let good = oracle.key == h.oracle && data.len() >= 8 && 0 < p <= 1_000_000_000_000 && fresh;
                &&& good && a.min_price <= p <= a.max_price ==> order_price(h, oracle, a, now) == Ok::<_, PercolatorError>(p as u64)
                &&& good && !(a.min_price <= p <= a.max_price) ==> order_price(h, oracle, a, now) == Err::<u64, _>(
                    PercolatorError::SlippageExceeded,
                )
                &&& !good ==> order_price(h, oracle, a, now) == Err::<u64, _>(PercolatorError::StaleOracle)
                &&& data.len() >= 8 && 0 < p <= 1_000_000_000_000 <==> oracle_price(data) == Ok::<_, PercolatorError>(p as u64)
                &&& data.len() < 8 || !(0 < p <= 1_000_000_000_000) <==> oracle_price(data) == Err::<u64, _>(
                    PercolatorError::StaleOracle,
                )
        }),
{
}

/// An order has a size, one of two sides, and limits that are in order. A victim is
/// any slot but the LP's.
pub proof fn arguments_make_sense(a: PlaceOrderArgs, victim: u16)
    ensures
        order_ok(a) == if a.size == 0 {
            Err::<(), _>(PercolatorError::ZeroSize)
        } else if a.side != 0 && a.side != 1 {
            Err(PercolatorError::InvalidSide)
        } else if a.max_price < a.min_price {
            Err(PercolatorError::SlippageExceeded)
        } else {
            Ok(())
        },
        victim == 0 <==> victim_ok(victim) == Err::<(), _>(PercolatorError::ProtocolLpNotLiquidatable),
        1 <= victim < 4096 <==> victim_ok(victim) is Ok,
        victim >= 4096 <==> victim_ok(victim) == Err::<(), _>(PercolatorError::InvalidVictimSlot),
{
}

/// A deposit, a withdrawal or the LP's funds are accepted when there is an amount,
/// the accounts are in order, the mint is the market's, the LP is funded by the
/// creator, and the market takes it.
pub proof fn token_instructions_are_accepted(program: Pubkey, acc: Seq<AccountView>, amount: u64, now: u64)
    ensures
        ({
                let h = header_of(acc[0].data@);
                let s = slab_engine(acc[0].data@);
                let ok = amount > 0 && tokens_are_in_order(program, acc[0], acc[1], acc[2], acc[3], acc[5]) && shapes_fit(
                    acc[0],
                    acc[2],
                    acc[3],
                ) && acc[4].key == h.mint;
                let own = acc[3].data@.subrange(32, 64) == acc[3].key.bytes@;
                &&& deposit_effect(program, acc, DepositArgs {
                    amount,
                }, now) is Ok <==> ok && s.take_deposit(acc[1].key, amount, now) is Ok
                &&& withdraw_effect(program, acc, WithdrawArgs {
                    amount,
                }, now) is Ok <==> ok && own && s.give_withdrawal(
                    acc[1].key,
                    amount,
                    now,
                ) is Ok
                &&& bootstrap_effect(program, acc, BootstrapLpArgs {
                    amount,
                }, now) is Ok <==> ok && acc[1].key == h.creator && s.fund_lp(
                    amount,
                    now,
                ) is Ok
                &&& amount == 0 ==> deposit_effect(program, acc, DepositArgs { amount }, now) is Err && withdraw_effect(
                    program,
                    acc,
                    WithdrawArgs { amount },
                    now,
                ) is Err
        }),
{
}

/// A liquidation or a crank is accepted when the accounts are in order, the vault owns
/// itself, the oracle is the market's and shows a price, and the market takes it.
pub proof fn paid_instructions_are_accepted(
    program: Pubkey,
    acc: Seq<AccountView>,
    a: LiquidateArgs,
    k: CrankArgs,
    now: u64,
)
    ensures
        ({
                let h = header_of(acc[0].data@);
                let s = slab_engine(acc[0].data@);
                let p = field_at(acc[3].data@, 0, 8);
                &&& liquidate_effect(program, acc, a, now) is Ok <==> tokens_are_in_order(program, acc[0], acc[1], acc[2], acc[5], acc[6])
                    && shapes_fit(acc[0], acc[2], acc[5]) && acc[5].data@.subrange(32, 64) == acc[5].key.bytes@ && acc[3].key == h.oracle
                    && acc[3].data@.len() >= 8 && 0 < p <= 1_000_000_000_000 && 1 <= a.victim_slot < 4096 && s.seize(
                    a.victim_slot,
                    p as u64,
                    now,
                ) is Ok
                &&& crank_effect(program, acc, k, now) is Ok <==> tokens_are_in_order(program, acc[0], acc[1], acc[3], acc[4], acc[5])
                    && shapes_fit(acc[0], acc[3], acc[4]) && acc[4].data@.subrange(32, 64) == acc[4].key.bytes@ && match k.kind {
                    0 => s.crank_for(CrankKind::Funding, now) is Ok,
                    1 => s.crank_for(CrankKind::Gc, now) is Ok,
                    2 => s.crank_for(CrankKind::AdlReset, now) is Ok,
                    _ => false,
                }
        }),
{
}

/// An order is accepted when it makes sense, the user signs, the slab is the market's
/// and set up, the oracle shows a price within the limits, and the market takes it.
pub proof fn orders_are_accepted(program: Pubkey, acc: Seq<AccountView>, a: PlaceOrderArgs, now: u64)
    ensures
        ({
                let h = header_of(acc[0].data@);
                let side = if a.side == 0 {
                    Side::Long
                } else {
                    Side::Short
                };
                let price = order_price(h, acc[2], a, now);
                place_order_effect(program, acc, a, now) is Ok <==> a.size > 0 && a.side <= 1 && a.min_price <= a.max_price
                    && acc[1].is_signer && acc[0].is_writable && acc[0].owner == program && acc[0].data@.len() == slab_size()
                    && h.initialized != 0 && price is Ok && slab_engine(acc[0].data@).place_order(
                    acc[1].key,
                    side,
                    a.size,
                    price->Ok_0,
                    now,
                ) is Ok
        }),
{
}

/// A slab is created when the payer signs, payer and slab are writable, the system
/// program is named, and the slab is an empty account of the program that is exempt
/// from rent, with a vault that it derives. The header says who, and the engine's
/// place is empty.
pub proof fn slab_starts_empty(
    program: Pubkey,
    acc: Seq<AccountView>,
    a: CreateSlabArgs,
    rent_exempt: bool,
    r: Result<Outcome, PercolatorError>,
)
    requires
        slab_created(program, acc, a, rent_exempt, r),
    ensures
        r is Ok <==> {
            &&& acc[0].is_signer
            &&& acc[0].is_writable && acc[1].is_writable
            &&& acc[4].key.bytes == SYSTEM_PROGRAM_ID
            &&& acc[1].data@.len() == slab_size()
            &&& acc[1].owner == program
            &&& rent_exempt
            &&& forall|j: int| 0 <= j < 104 ==> #[trigger] acc[1].data@[j] == 0
            &&& vault_address(acc[1].key, a.vault_bump, program) is Some
        },
        r matches Ok(o) ==> {
            let h = header_of(o.slab_data@);
            &&& h.mint == acc[2].key && h.oracle == acc[3].key && h.creator == acc[0].key
            &&& h.bump == a.bump && h.vault_bump == a.vault_bump && h.initialized == 0
            &&& o.tokens is None && o.lamports is None
            &&& o.slab_data@.len() == slab_size()
            &&& forall|j: int| 104 <= j < slab_size() ==> #[trigger] o.slab_data@[j] == 0
        },
{
}

/// A market is listed on the same terms, when the treasury is paid the fee that is
/// asked, or more.
pub proof fn market_is_listed(
    program: Pubkey,
    acc: Seq<AccountView>,
    a: CreateMarketArgs,
    rent_exempt: bool,
    r: Result<Outcome, PercolatorError>,
)
    requires
        market_created(program, acc, a, rent_exempt, r),
    ensures
        r is Ok <==> {
            &&& acc[0].is_signer
            &&& acc[0].is_writable && acc[1].is_writable && acc[4].is_writable
            &&& acc[5].key.bytes == SYSTEM_PROGRAM_ID
            &&& acc[4].key.bytes == TREASURY_PUBKEY
            &&& acc[1].data@.len() == slab_size()
            &&& acc[1].owner == program
            &&& rent_exempt
            &&& forall|j: int| 0 <= j < 104 ==> #[trigger] acc[1].data@[j] == 0
            &&& vault_address(acc[1].key, a.vault_bump, program) is Some
            &&& a.fee_lamports >= 500_000_000
        },
{
}

/// An engine is put into a slab once, by the slab's creator, with parameters that a
/// market may have. Nothing else of the header changes.
pub proof fn engine_is_put_in_once(
    program: Pubkey,
    acc: Seq<AccountView>,
    a: InitializeEngineArgs,
    now: u64,
    r: Result<Outcome, PercolatorError>,
)
    requires
        engine_initialized(program, acc, a, now, r),
    ensures
        ({
                let h = header_of(acc[0].data@);
                r is Ok <==> {
                    &&& acc[0].is_writable && acc[0].owner == program && acc[0].data@.len() == slab_size()
                    &&& acc[1].is_signer && acc[1].key == h.creator
                    &&& !(h.mint.bytes == SYSTEM_PROGRAM_ID && h.oracle.bytes == SYSTEM_PROGRAM_ID && h.creator.bytes == SYSTEM_PROGRAM_ID)
                    &&& h.initialized == 0
                    &&& risk_params_ok(a.risk_params, a.init_oracle_price)
                }
        }),
        r matches Ok(o) ==> o.tokens is None && o.lamports is None,
{
}

/// An order that would take its user further to a side is refused while that side is
/// not in normal operation: one of a user without a position, one on the side of the
/// position, or one that is larger than a position on the other side.
pub proof fn closed_side_takes_no_orders(s: EngineState, user: Pubkey, side: Side, size: u64, price: u64, now: u64)
    requires
        s.owner_slot(user.bytes) is Some,
        s.has_lp(),
    ensures
        ({
                let q = s.effective_pos(s.owner_slot(user.bytes)->0 as int);
                let further = match side {
                    Side::Long => q >= 0 || size > -q,
                    Side::Short => q <= 0 || size > q,
                };
                let closed = match side {
                    Side::Long => s.side_mode_long != SideMode::Normal,
                    Side::Short => s.side_mode_short != SideMode::Normal,
                };
                further && closed <==> s.place_order(user, side, size, price, now) == Err::<EngineState, _>(PercolatorError::DrainOnly)
        }),
{
}

/// A user withdraws from the user's own slot, at the last price and without funding,
/// with the market's own horizons. Nobody else can.
pub proof fn withdrawal_is_at_the_last_price(s: EngineState, user: Pubkey, amount: u64, now: u64)
    ensures
        s.owner_slot(user.bytes) is None ==> s.give_withdrawal(user, amount, now) is Err,
        s.owner_slot(user.bytes) matches Some(i) ==> (s.give_withdrawal(user, amount, now) is Ok <==> s.withdraw(
                i,
                amount as u128,
                s.last_oracle_price,
                now,
                0,
                s.params.h_min,
                s.params.h_max,
            ) is Ok),
        s.give_withdrawal(user, amount, now) matches Ok(t) ==> s.withdraw(
            s.owner_slot(user.bytes)->0,
            amount as u128,
            s.last_oracle_price,
            now,
            0,
            s.params.h_min,
            s.params.h_max,
        ) == Ok::<EngineState, RiskError>(t),
{
}

/// The LP is funded once, in slot zero and before anybody else, and its owner is
/// nobody's key.
pub proof fn lp_is_funded_first(s: EngineState, amount: u64, now: u64)
    ensures
        s.in_use(0) ==> s.fund_lp(amount, now) == Err::<EngineState, _>(PercolatorError::LpAlreadyBootstrapped),
        s.free_head != 0 ==> s.fund_lp(amount, now) == Err::<EngineState, _>(PercolatorError::LpAlreadyBootstrapped),
        !s.in_use(0) && s.free_head == 0 ==> (s.fund_lp(amount, now) is Ok <==> s.deposit(0, amount as u128, now) is Ok),
        s.fund_lp(amount, now) matches Ok(t) ==> s.deposit(0, amount as u128, now) matches Ok(u) && t.vault == u.vault && t.c_tot
            == u.c_tot && (u.accounts.len() > 0 ==> t.accounts[0].capital == u.accounts[0].capital && t.accounts[0].kind == 1
                && t.accounts[0].owner == PROTOCOL_LP_OWNER_SENTINEL),
{
    if let Ok(t) = s.fund_lp(amount, now) {
        let u = s.deposit(0, amount as u128, now)->Ok_0;
        let lp = Account { kind: Account::KIND_LP, owner: PROTOCOL_LP_OWNER_SENTINEL, ..u.accounts[0] };
        assert(t.accounts == u.accounts.update(0, lp));
    }
}

/// A funding crank needs a later slot than the last accrual, and brings the market
/// there at the last price.
pub proof fn funding_crank_needs_a_later_slot(s: EngineState, now: u64)
    ensures
        now <= s.last_market_slot <==> s.crank_funding(now) == Err::<EngineState, _>(PercolatorError::NothingToDo),
        s.crank_funding(now) matches Ok(t) ==> t.current_slot == now && t.last_market_slot == now && t.last_crank_slot == now
            && t.last_oracle_price == s.last_oracle_price && t.accounts == s.accounts,
{
    reveal(EngineState::accrue);
}

} // verus!
