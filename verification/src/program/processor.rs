//! The instructions of the program, from accounts and arguments to what changes:
//! the new slab, and the transfers to be made.

use vstd::prelude::*;
use vstd::slice::slice_subrange;
use crate::address::{AccountView, Failure, Pubkey, SYSTEM_PROGRAM_ID};
use crate::bytes::{append_zeros, push_slice};
use crate::layout::{ENGINE_SIZE, engine_at, engine_of, engine_of_image, is_engine};
use crate::model::EngineState;
use crate::program::checks::{
    check_new_engine, check_new_slab, check_order, check_slab_shape, check_token_accounts, check_vault, check_victim,
    engine_is_new, live_header, oracle_price, order_ok, order_price, read_live_header, read_oracle_price,
    read_order_price, risk_params_ok, slab_is_new, slab_shape, slab_size, token_accounts_ok, validate_risk_params,
    vault_ok, victim_ok, MIN_MARKET_CREATION_FEE_LAMPORTS, TREASURY_PUBKEY,
};
use crate::program::error::PercolatorError;
use crate::program::instruction::{
    wire_form, wire_form_is_unambiguous, BootstrapLpArgs, CrankArgs, CrankKind, CreateMarketArgs, CreateSlabArgs,
    DepositArgs, InitializeEngineArgs, LiquidateArgs, PercolatorInstruction, PlaceOrderArgs, WithdrawArgs,
};
use crate::program::state::{
    header_bytes, header_image_is_unique, header_of, is_new_header, SlabHeader, ENGINE_OFFSET, ORIGIN_OPEN, ORIGIN_SEEDED,
};
use crate::types::{RiskEngine, Side};

verus! {

/// A transfer of tokens to be made.
#[derive(Clone, Copy, Debug, PartialEq, Eq)]
pub struct TokenTransfer {
    pub source: Pubkey,
    pub destination: Pubkey,
    pub authority: Pubkey,
    pub amount: u64,
    /// Where the vault is the authority: the bump under which it signs.
    pub vault_bump: Option<u8>,
}

/// A transfer of lamports to be made.
#[derive(Clone, Copy, Debug, PartialEq, Eq)]
pub struct LamportTransfer {
    pub source: Pubkey,
    pub destination: Pubkey,
    pub lamports: u64,
}

/// What an instruction changes.
#[derive(Clone, Debug, PartialEq, Eq)]
pub struct Outcome {
    /// The slab account, all of it.
    pub slab_data: Vec<u8>,
    pub tokens: Option<TokenTransfer>,
    pub lamports: Option<LamportTransfer>,
}

/// What an instruction on a live market changes: the engine under the header, and
/// tokens.
pub struct Effect {
    pub header: SlabHeader,
    pub engine: EngineState,
    pub tokens: Option<TokenTransfer>,
}

/// `data` is a slab with this header and this engine.
pub open spec fn is_slab(data: Seq<u8>, h: SlabHeader, s: EngineState) -> bool {
    &&& data.len() == slab_size()
    &&& header_bytes(h) == data.subrange(0, SlabHeader::LEN as int)
    &&& engine_at(data.subrange(ENGINE_OFFSET as int, slab_size()), s)
}

/// The part of a slab in which the engine stands.
pub open spec fn engine_part(data: Seq<u8>) -> Seq<u8> {
    data.subrange(ENGINE_OFFSET as int, slab_size())
}

/// The engine in a slab.
pub open spec fn slab_engine(data: Seq<u8>) -> EngineState {
    engine_of(engine_part(data))
}

/// A slab of the program whose engine was put in place holds an engine. Setting up
/// the engine brings this about, every later instruction keeps it, and nobody but
/// the program writes to its slabs.
pub open spec fn holds_engine(program: Pubkey, slab: AccountView) -> bool {
    slab_shape(program, slab) is Ok && live_header(slab) is Ok ==> is_engine(engine_part(slab.data@))
}

/// The outcome is that of the model.
pub open spec fn effected(
    model: Result<Effect, PercolatorError>,
    r: Result<Outcome, PercolatorError>,
) -> bool {
    match model {
        Ok(m) => {
            &&& r is Ok
            &&& is_slab(r->Ok_0.slab_data@, m.header, m.engine)
            &&& m.engine.wf()
            &&& r->Ok_0.tokens == m.tokens
            &&& r->Ok_0.lamports is None
        },
        Err(e) => r == Err::<Outcome, PercolatorError>(e),
    }
}

/// The outcome of an instruction that takes `n` accounts: `inner` is what comes of
/// them, where there are as many.
pub open spec fn processed(
    acc: Seq<AccountView>,
    n: int,
    inner: spec_fn(Result<Outcome, PercolatorError>) -> bool,
    r: Result<Outcome, Failure<PercolatorError>>,
) -> bool {
    if acc.len() < n {
        r == Err::<Outcome, Failure<PercolatorError>>(Failure::NotEnoughAccountKeys)
    } else {
        match r {
            Ok(o) => inner(Ok(o)),
            Err(Failure::Custom(e)) => inner(Err(e)),
            Err(Failure::NotEnoughAccountKeys) => false,
        }
    }
}

/// The transfer of a holder's tokens into the vault.
pub open spec fn into_vault(
    holder: AccountView,
    holder_ta: AccountView,
    vault_ta: AccountView,
    amount: u64,
) -> TokenTransfer {
    TokenTransfer {
        source: holder_ta.key,
        destination: vault_ta.key,
        authority: holder.key,
        amount,
        vault_bump: None,
    }
}

/// The transfer of tokens out of the vault.
pub open spec fn out_of_vault(
    h: SlabHeader,
    holder_ta: AccountView,
    vault_ta: AccountView,
    amount: u64,
) -> TokenTransfer {
    TokenTransfer {
        source: vault_ta.key,
        destination: holder_ta.key,
        authority: vault_ta.key,
        amount,
        vault_bump: Some(h.vault_bump),
    }
}

/// As [`out_of_vault`], where there is anything to pay.
pub open spec fn bounty_out_of_vault(
    h: SlabHeader,
    holder_ta: AccountView,
    vault_ta: AccountView,
    bounty: u64,
) -> Option<TokenTransfer> {
    if bounty > 0 {
        Some(out_of_vault(h, holder_ta, vault_ta, bounty))
    } else {
        None
    }
}

/// Accounts: slab, user, user's tokens, vault, mint, token program, system
/// program.
pub open spec fn deposit_effect(
    program: Pubkey,
    acc: Seq<AccountView>,
    a: DepositArgs,
    now: u64,
) -> Result<Effect, PercolatorError> {
    if a.amount == 0 {
        Err(PercolatorError::ZeroAmount)
    } else {
        match token_accounts_ok(program, acc[0], acc[1], acc[2], acc[3], acc[5]) {
            Err(e) => Err(e),
            Ok(_) => match live_header(acc[0]) {
                Err(e) => Err(e),
                Ok(h) => {
                    if h.mint != acc[4].key {
                        Err(PercolatorError::WrongMint)
                    } else {
                        match vault_ok(program, acc[0], h, acc[1], acc[2], acc[3], false) {
                            Err(e) => Err(e),
                            Ok(_) => {
                                let s = slab_engine(acc[0].data@);
                                match s.take_deposit(acc[1].key, a.amount, now) {
                                    Err(e) => Err(e),
                                    Ok((t, _)) => {
                                        Ok(Effect {
                                            header: h,
                                            engine: t,
                                            tokens: Some(into_vault(acc[1], acc[2], acc[3], a.amount)),
                                        })
                                    },
                                }
                            },
                        }
                    }
                },
            },
        }
    }
}

/// Accounts as for a deposit.
pub open spec fn withdraw_effect(
    program: Pubkey,
    acc: Seq<AccountView>,
    a: WithdrawArgs,
    now: u64,
) -> Result<Effect, PercolatorError> {
    if a.amount == 0 {
        Err(PercolatorError::ZeroAmount)
    } else {
        match token_accounts_ok(program, acc[0], acc[1], acc[2], acc[3], acc[5]) {
            Err(e) => Err(e),
            Ok(_) => match live_header(acc[0]) {
                Err(e) => Err(e),
                Ok(h) => {
                    if h.mint != acc[4].key {
                        Err(PercolatorError::WrongMint)
                    } else {
                        match vault_ok(program, acc[0], h, acc[1], acc[2], acc[3], true) {
                            Err(e) => Err(e),
                            Ok(_) => {
                                let s = slab_engine(acc[0].data@);
                                match s.give_withdrawal(acc[1].key, a.amount, now) {
                                    Err(e) => Err(e),
                                    Ok(t) => {
                                        Ok(Effect {
                                            header: h,
                                            engine: t,
                                            tokens: Some(out_of_vault(h, acc[2], acc[3], a.amount)),
                                        })
                                    },
                                }
                            },
                        }
                    }
                },
            },
        }
    }
}

/// Accounts as for a deposit, with the creator as the user.
pub open spec fn bootstrap_effect(
    program: Pubkey,
    acc: Seq<AccountView>,
    a: BootstrapLpArgs,
    now: u64,
) -> Result<Effect, PercolatorError> {
    if a.amount == 0 {
        Err(PercolatorError::ZeroAmount)
    } else {
        match token_accounts_ok(program, acc[0], acc[1], acc[2], acc[3], acc[5]) {
            Err(e) => Err(e),
            Ok(_) => match live_header(acc[0]) {
                Err(e) => Err(e),
                Ok(h) => {
                    if h.creator != acc[1].key {
                        Err(PercolatorError::WrongSigner)
                    } else if h.mint != acc[4].key {
                        Err(PercolatorError::WrongMint)
                    } else {
                        match vault_ok(program, acc[0], h, acc[1], acc[2], acc[3], false) {
                            Err(e) => Err(e),
                            Ok(_) => {
                                let s = slab_engine(acc[0].data@);
                                match s.fund_lp(a.amount, now) {
                                    Err(e) => Err(e),
                                    Ok(t) => {
                                        Ok(Effect {
                                            header: h,
                                            engine: t,
                                            tokens: Some(into_vault(acc[1], acc[2], acc[3], a.amount)),
                                        })
                                    },
                                }
                            },
                        }
                    }
                },
            },
        }
    }
}

/// The side of an order.
pub open spec fn order_side(side: u8) -> Side {
    if side == 0 {
        Side::Long
    } else {
        Side::Short
    }
}

/// Accounts: slab, user, oracle, clock.
pub open spec fn place_order_effect(
    program: Pubkey,
    acc: Seq<AccountView>,
    a: PlaceOrderArgs,
    now: u64,
) -> Result<Effect, PercolatorError> {
    match order_ok(a) {
        Err(e) => Err(e),
        Ok(_) => {
            if !(acc[1].is_signer) {
                Err(PercolatorError::MissingSigner)
            } else if !(acc[0].is_writable) {
                Err(PercolatorError::AccountNotWritable)
            } else {
                match slab_shape(program, acc[0]) {
                    Err(e) => Err(e),
                    Ok(_) => match live_header(acc[0]) {
                        Err(e) => Err(e),
                        Ok(h) => match order_price(h, acc[2], a, now) {
                            Err(e) => Err(e),
                            Ok(price) => {
                                let s = slab_engine(acc[0].data@);
                                match s.place_order(acc[1].key, order_side(a.side), a.size, price, now) {
                                    Err(e) => Err(e),
                                    Ok(t) => Ok(Effect { header: h, engine: t, tokens: None }),
                                }
                            },
                        },
                    },
                }
            }
        },
    }
}

/// Accounts: slab, liquidator, liquidator's tokens, oracle, clock, vault, token
/// program.
pub open spec fn liquidate_effect(
    program: Pubkey,
    acc: Seq<AccountView>,
    a: LiquidateArgs,
    now: u64,
) -> Result<Effect, PercolatorError> {
    match token_accounts_ok(program, acc[0], acc[1], acc[2], acc[5], acc[6]) {
        Err(e) => Err(e),
        Ok(_) => match victim_ok(a.victim_slot) {
            Err(e) => Err(e),
            Ok(_) => match live_header(acc[0]) {
                Err(e) => Err(e),
                Ok(h) => {
                    if acc[3].key != h.oracle {
                        Err(PercolatorError::StaleOracle)
                    } else {
                        match vault_ok(program, acc[0], h, acc[1], acc[2], acc[5], true) {
                            Err(e) => Err(e),
                            Ok(_) => match oracle_price(acc[3].data@) {
                                Err(e) => Err(e),
                                Ok(price) => {
                                    let s = slab_engine(acc[0].data@);
                                    match s.seize(a.victim_slot, price, now) {
                                        Err(e) => Err(e),
                                        Ok((t, bounty)) => {
                                            Ok(Effect {
                                                header: h,
                                                engine: t,
                                                tokens: bounty_out_of_vault(h, acc[2], acc[5], bounty as u64),
                                            })
                                        },
                                    }
                                },
                            },
                        }
                    }
                },
            },
        },
    }
}

/// Accounts: slab, caller, clock, caller's tokens, vault, token program.
pub open spec fn crank_effect(
    program: Pubkey,
    acc: Seq<AccountView>,
    a: CrankArgs,
    now: u64,
) -> Result<Effect, PercolatorError> {
    match token_accounts_ok(program, acc[0], acc[1], acc[3], acc[4], acc[5]) {
        Err(e) => Err(e),
        Ok(_) => match CrankKind::of_number(a.kind) {
            None => Err(PercolatorError::InvalidCrankKind),
            Some(kind) => {
                match live_header(acc[0]) {
                    Err(e) => Err(e),
                    Ok(h) => match vault_ok(program, acc[0], h, acc[1], acc[3], acc[4], true) {
                        Err(e) => Err(e),
                        Ok(_) => {
                            let s = slab_engine(acc[0].data@);
                            match s.crank_for(kind, now) {
                                Err(e) => Err(e),
                                Ok((t, bounty)) => {
                                    Ok(Effect {
                                        header: h,
                                        engine: t,
                                        tokens: bounty_out_of_vault(h, acc[3], acc[4], bounty),
                                    })
                                },
                            }
                        },
                    },
                }
            },
        },
    }
}

/// What is asked before a slab is created. Accounts: payer, slab, mint, oracle,
/// system program.
pub open spec fn create_slab_checked(
    program: Pubkey,
    acc: Seq<AccountView>,
    a: CreateSlabArgs,
    rent_exempt: bool,
) -> Result<(), PercolatorError> {
    if !(acc[0].is_signer) {
        Err(PercolatorError::MissingSigner)
    } else if !(acc[0].is_writable && acc[1].is_writable) {
        Err(PercolatorError::AccountNotWritable)
    } else if acc[4].key.bytes != SYSTEM_PROGRAM_ID {
        Err(PercolatorError::InvalidSystemProgram)
    } else {
        slab_is_new(program, acc[1], rent_exempt, a.vault_bump)
    }
}

/// What is asked before a market is listed. Accounts: payer, slab, mint, oracle,
/// treasury, system program, token program.
pub open spec fn create_market_checked(
    program: Pubkey,
    acc: Seq<AccountView>,
    a: CreateMarketArgs,
    rent_exempt: bool,
) -> Result<(), PercolatorError> {
    if !(acc[0].is_signer) {
        Err(PercolatorError::MissingSigner)
    } else if !(acc[0].is_writable && acc[1].is_writable && acc[4].is_writable) {
        Err(PercolatorError::AccountNotWritable)
    } else if acc[5].key.bytes != SYSTEM_PROGRAM_ID {
        Err(PercolatorError::InvalidSystemProgram)
    } else if acc[4].key.bytes != TREASURY_PUBKEY {
        Err(PercolatorError::WrongTreasury)
    } else {
        match slab_is_new(program, acc[1], rent_exempt, a.vault_bump) {
            Err(e) => Err(e),
            Ok(_) => {
                if a.fee_lamports < MIN_MARKET_CREATION_FEE_LAMPORTS {
                    Err(PercolatorError::ListingFeeTooLow)
                } else {
                    Ok(())
                }
            },
        }
    }
}

/// A slab with this header and nothing in the engine's place.
pub open spec fn is_empty_slab(data: Seq<u8>, h: SlabHeader) -> bool {
    data == header_bytes(h) + Seq::new(ENGINE_SIZE as nat, |i: int| 0u8)
}

/// What comes of `CreateSlab`.
pub open spec fn slab_created(
    program: Pubkey,
    acc: Seq<AccountView>,
    a: CreateSlabArgs,
    rent_exempt: bool,
    r: Result<Outcome, PercolatorError>,
) -> bool {
    match create_slab_checked(program, acc, a, rent_exempt) {
        Err(e) => r == Err::<Outcome, PercolatorError>(e),
        Ok(_) => {
            &&& r is Ok
            &&& is_empty_slab(r->Ok_0.slab_data@, header_of(r->Ok_0.slab_data@))
            &&& is_new_header(
                header_of(r->Ok_0.slab_data@),
                acc[2].key,
                acc[3].key,
                acc[0].key,
                a.bump,
                a.vault_bump,
                ORIGIN_SEEDED,
            )
            &&& r->Ok_0.tokens is None
            &&& r->Ok_0.lamports is None
        },
    }
}

/// What comes of `CreateMarket`.
pub open spec fn market_created(
    program: Pubkey,
    acc: Seq<AccountView>,
    a: CreateMarketArgs,
    rent_exempt: bool,
    r: Result<Outcome, PercolatorError>,
) -> bool {
    match create_market_checked(program, acc, a, rent_exempt) {
        Err(e) => r == Err::<Outcome, PercolatorError>(e),
        Ok(_) => {
            &&& r is Ok
            &&& is_empty_slab(r->Ok_0.slab_data@, header_of(r->Ok_0.slab_data@))
            &&& is_new_header(
                header_of(r->Ok_0.slab_data@),
                acc[2].key,
                acc[3].key,
                acc[0].key,
                0,
                a.vault_bump,
                ORIGIN_OPEN,
            )
            &&& r->Ok_0.tokens is None
            &&& r->Ok_0.lamports == Some(
                (LamportTransfer { source: acc[0].key, destination: acc[4].key, lamports: a.fee_lamports }),
            )
        },
    }
}

/// What is asked before an engine is put into a slab. Accounts: slab, creator.
pub open spec fn initialize_engine_checked(
    program: Pubkey,
    acc: Seq<AccountView>,
    a: InitializeEngineArgs,
) -> Result<SlabHeader, PercolatorError> {
    match engine_is_new(program, acc[0], acc[1]) {
        Err(e) => Err(e),
        Ok(h) => {
            if !risk_params_ok(a.risk_params, a.init_oracle_price) {
                Err(PercolatorError::InvalidRiskParams)
            } else {
                Ok(h)
            }
        },
    }
}

/// A slab with this header and a fresh engine.
pub open spec fn is_fresh_slab(data: Seq<u8>, h: SlabHeader, a: InitializeEngineArgs, now: u64) -> bool {
    let s = engine_of(data.subrange(ENGINE_OFFSET as int, slab_size()));
    &&& is_slab(data, h, s)
    &&& s.wf()
    &&& s.is_fresh(a.risk_params.as_params(), now, a.init_oracle_price)
}

/// What comes of `InitializeEngine`.
pub open spec fn engine_initialized(
    program: Pubkey,
    acc: Seq<AccountView>,
    a: InitializeEngineArgs,
    now: u64,
    r: Result<Outcome, PercolatorError>,
) -> bool {
    match initialize_engine_checked(program, acc, a) {
        Err(e) => r == Err::<Outcome, PercolatorError>(e),
        Ok(h) => {
            &&& r is Ok
            &&& is_fresh_slab(r->Ok_0.slab_data@, (SlabHeader { initialized: 1, ..h }), a, now)
            &&& r->Ok_0.tokens is None
            &&& r->Ok_0.lamports is None
        },
    }
}

/// Read the engine in a slab.
fn read_engine(slab: &AccountView) -> (r: RiskEngine)
    requires
        slab.data@.len() == slab_size(),
        is_engine(engine_part(slab.data@)),
    ensures
        r.wf(),
        r@ == slab_engine(slab.data@),
{
    let part: &[u8] = slice_subrange(slab.data.as_slice(), ENGINE_OFFSET, SlabHeader::LEN + ENGINE_SIZE);
    RiskEngine::from_bytes(part).unwrap()
}

/// Whether a slab of the program whose engine was put in place holds one.
fn has_engine(program_id: &Pubkey, slab: &AccountView) -> (r: bool)
    ensures
        r == holds_engine(*program_id, *slab),
{
    if check_slab_shape(program_id, slab).is_err() || read_live_header(slab).is_err() {
        return true;
    }
    let part: &[u8] = slice_subrange(slab.data.as_slice(), ENGINE_OFFSET, SlabHeader::LEN + ENGINE_SIZE);
    RiskEngine::from_bytes(part).is_some()
}

/// The slab with this header and this engine, and the tokens to move.
fn outcome(h: &SlabHeader, e: &RiskEngine, tokens: Option<TokenTransfer>) -> (r: Outcome)
    requires
        e.wf(),
    ensures
        is_slab(r.slab_data@, *h, e@),
        r.tokens == tokens,
        r.lamports is None,
{
    let mut data: Vec<u8> = h.to_bytes();
    let image: Vec<u8> = e.to_bytes();
    push_slice(&mut data, image.as_slice());
    proof {
        assert(data@.subrange(0, SlabHeader::LEN as int) =~= header_bytes(*h));
        assert(data@.subrange(ENGINE_OFFSET as int, slab_size()) =~= image@);
    }
    Outcome { slab_data: data, tokens, lamports: None }
}

fn empty_slab(h: &SlabHeader, lamports: Option<LamportTransfer>) -> (r: Outcome)
    ensures
        is_empty_slab(r.slab_data@, *h),
        header_of(r.slab_data@) == *h,
        r.tokens is None,
        r.lamports == lamports,
{
    let mut data: Vec<u8> = h.to_bytes();
    append_zeros(&mut data, ENGINE_SIZE);
    proof {
        assert(data@.subrange(0, SlabHeader::LEN as int) =~= header_bytes(*h));
        header_image_is_unique(*h, header_of(data@));
    }
    Outcome { slab_data: data, tokens: None, lamports }
}

fn deposit(program_id: &Pubkey, acc: &[AccountView], a: &DepositArgs, now: u64) -> (r: Result<Outcome, PercolatorError>)
    requires
        acc@.len() >= 7,
        holds_engine(*program_id, acc@[0]),
    ensures
        effected(deposit_effect(*program_id, acc@, *a, now), r),
{
    if a.amount == 0 {
        return Err(PercolatorError::ZeroAmount);
    }
    check_token_accounts(program_id, &acc[0], &acc[1], &acc[2], &acc[3], &acc[5])?;
    let h: SlabHeader = read_live_header(&acc[0])?;
    if !h.mint.same(&acc[4].key) {
        return Err(PercolatorError::WrongMint);
    }
    check_vault(program_id, &acc[0], &h, &acc[1], &acc[2], &acc[3], false)?;
    let mut e: RiskEngine = read_engine(&acc[0]);
    e.take_deposit(&acc[1].key, a.amount, now)?;
    let tokens = TokenTransfer {
        source: acc[2].key,
        destination: acc[3].key,
        authority: acc[1].key,
        amount: a.amount,
        vault_bump: None,
    };
    Ok(outcome(&h, &e, Some(tokens)))
}

/// The transfer that pays out of the vault.
fn pay_out(h: &SlabHeader, holder_ta: &AccountView, vault_ta: &AccountView, amount: u64) -> (r: TokenTransfer)
    ensures
        r == out_of_vault(*h, *holder_ta, *vault_ta, amount),
{
    TokenTransfer {
        source: vault_ta.key,
        destination: holder_ta.key,
        authority: vault_ta.key,
        amount,
        vault_bump: Some(h.vault_bump),
    }
}

fn pay_bounty(
    h: &SlabHeader,
    holder_ta: &AccountView,
    vault_ta: &AccountView,
    bounty: u64,
) -> (r: Option<TokenTransfer>)
    ensures
        r == bounty_out_of_vault(*h, *holder_ta, *vault_ta, bounty),
{
    if bounty > 0 {
        Some(pay_out(h, holder_ta, vault_ta, bounty))
    } else {
        None
    }
}

fn withdraw(
    program_id: &Pubkey,
    acc: &[AccountView],
    a: &WithdrawArgs,
    now: u64,
) -> (r: Result<Outcome, PercolatorError>)
    requires
        acc@.len() >= 7,
        holds_engine(*program_id, acc@[0]),
    ensures
        effected(withdraw_effect(*program_id, acc@, *a, now), r),
{
    if a.amount == 0 {
        return Err(PercolatorError::ZeroAmount);
    }
    check_token_accounts(program_id, &acc[0], &acc[1], &acc[2], &acc[3], &acc[5])?;
    let h: SlabHeader = read_live_header(&acc[0])?;
    if !h.mint.same(&acc[4].key) {
        return Err(PercolatorError::WrongMint);
    }
    check_vault(program_id, &acc[0], &h, &acc[1], &acc[2], &acc[3], true)?;
    let mut e: RiskEngine = read_engine(&acc[0]);
    e.give_withdrawal(&acc[1].key, a.amount, now)?;
    Ok(outcome(&h, &e, Some(pay_out(&h, &acc[2], &acc[3], a.amount))))
}

fn bootstrap_lp(
    program_id: &Pubkey,
    acc: &[AccountView],
    a: &BootstrapLpArgs,
    now: u64,
) -> (r: Result<Outcome, PercolatorError>)
    requires
        acc@.len() >= 7,
        holds_engine(*program_id, acc@[0]),
    ensures
        effected(bootstrap_effect(*program_id, acc@, *a, now), r),
{
    if a.amount == 0 {
        return Err(PercolatorError::ZeroAmount);
    }
    check_token_accounts(program_id, &acc[0], &acc[1], &acc[2], &acc[3], &acc[5])?;
    let h: SlabHeader = read_live_header(&acc[0])?;
    if !h.creator.same(&acc[1].key) {
        return Err(PercolatorError::WrongSigner);
    }
    if !h.mint.same(&acc[4].key) {
        return Err(PercolatorError::WrongMint);
    }
    check_vault(program_id, &acc[0], &h, &acc[1], &acc[2], &acc[3], false)?;
    let mut e: RiskEngine = read_engine(&acc[0]);
    e.fund_lp(a.amount, now)?;
    let tokens = TokenTransfer {
        source: acc[2].key,
        destination: acc[3].key,
        authority: acc[1].key,
        amount: a.amount,
        vault_bump: None,
    };
    Ok(outcome(&h, &e, Some(tokens)))
}

fn place_order(
    program_id: &Pubkey,
    acc: &[AccountView],
    a: &PlaceOrderArgs,
    now: u64,
) -> (r: Result<Outcome, PercolatorError>)
    requires
        acc@.len() >= 4,
        holds_engine(*program_id, acc@[0]),
    ensures
        effected(place_order_effect(*program_id, acc@, *a, now), r),
{
    check_order(a)?;
    if !acc[1].is_signer {
        return Err(PercolatorError::MissingSigner);
    }
    if !acc[0].is_writable {
        return Err(PercolatorError::AccountNotWritable);
    }
    check_slab_shape(program_id, &acc[0])?;
    let h: SlabHeader = read_live_header(&acc[0])?;
    let price: u64 = read_order_price(&h, &acc[2], a, now)?;
    let mut e: RiskEngine = read_engine(&acc[0]);
    let side: Side = if a.side == 0 {
        Side::Long
    } else {
        Side::Short
    };
    e.place_order(&acc[1].key, side, a.size, price, now)?;
    Ok(outcome(&h, &e, None))
}

fn liquidate(
    program_id: &Pubkey,
    acc: &[AccountView],
    a: &LiquidateArgs,
    now: u64,
) -> (r: Result<Outcome, PercolatorError>)
    requires
        acc@.len() >= 7,
        holds_engine(*program_id, acc@[0]),
    ensures
        effected(liquidate_effect(*program_id, acc@, *a, now), r),
{
    check_token_accounts(program_id, &acc[0], &acc[1], &acc[2], &acc[5], &acc[6])?;
    check_victim(a.victim_slot)?;
    let h: SlabHeader = read_live_header(&acc[0])?;
    if !acc[3].key.same(&h.oracle) {
        return Err(PercolatorError::StaleOracle);
    }
    check_vault(program_id, &acc[0], &h, &acc[1], &acc[2], &acc[5], true)?;
    let price: u64 = read_oracle_price(acc[3].data.as_slice())?;
    let mut e: RiskEngine = read_engine(&acc[0]);
    let bounty: u128 = e.seize(a.victim_slot, price, now)?;
    Ok(outcome(&h, &e, pay_bounty(&h, &acc[2], &acc[5], bounty as u64)))
}

fn crank(program_id: &Pubkey, acc: &[AccountView], a: &CrankArgs, now: u64) -> (r: Result<Outcome, PercolatorError>)
    requires
        acc@.len() >= 6,
        holds_engine(*program_id, acc@[0]),
    ensures
        effected(crank_effect(*program_id, acc@, *a, now), r),
{
    check_token_accounts(program_id, &acc[0], &acc[1], &acc[3], &acc[4], &acc[5])?;
    let kind: CrankKind = CrankKind::from_u8(a.kind).ok_or(PercolatorError::InvalidCrankKind)?;
    let h: SlabHeader = read_live_header(&acc[0])?;
    check_vault(program_id, &acc[0], &h, &acc[1], &acc[3], &acc[4], true)?;
    let mut e: RiskEngine = read_engine(&acc[0]);
    let bounty: u64 = e.crank_for(kind, now)?;
    Ok(outcome(&h, &e, pay_bounty(&h, &acc[3], &acc[4], bounty)))
}

fn create_slab(
    program_id: &Pubkey,
    acc: &[AccountView],
    a: &CreateSlabArgs,
    rent_exempt: bool,
) -> (r: Result<Outcome, PercolatorError>)
    requires
        acc@.len() >= 5,
    ensures
        slab_created(*program_id, acc@, *a, rent_exempt, r),
{
    if !acc[0].is_signer {
        return Err(PercolatorError::MissingSigner);
    }
    if !acc[0].is_writable || !acc[1].is_writable {
        return Err(PercolatorError::AccountNotWritable);
    }
    if !acc[4].key.is(&SYSTEM_PROGRAM_ID) {
        return Err(PercolatorError::InvalidSystemProgram);
    }
    check_new_slab(program_id, &acc[1], rent_exempt, a.vault_bump)?;
    let h: SlabHeader = SlabHeader::new(acc[2].key, acc[3].key, acc[0].key, a.bump, a.vault_bump);
    Ok(empty_slab(&h, None))
}

fn create_market(
    program_id: &Pubkey,
    acc: &[AccountView],
    a: &CreateMarketArgs,
    rent_exempt: bool,
) -> (r: Result<Outcome, PercolatorError>)
    requires
        acc@.len() >= 7,
    ensures
        market_created(*program_id, acc@, *a, rent_exempt, r),
{
    if !acc[0].is_signer {
        return Err(PercolatorError::MissingSigner);
    }
    if !acc[0].is_writable || !acc[1].is_writable || !acc[4].is_writable {
        return Err(PercolatorError::AccountNotWritable);
    }
    if !acc[5].key.is(&SYSTEM_PROGRAM_ID) {
        return Err(PercolatorError::InvalidSystemProgram);
    }
    if !acc[4].key.is(&TREASURY_PUBKEY) {
        return Err(PercolatorError::WrongTreasury);
    }
    check_new_slab(program_id, &acc[1], rent_exempt, a.vault_bump)?;
    if a.fee_lamports < MIN_MARKET_CREATION_FEE_LAMPORTS {
        return Err(PercolatorError::ListingFeeTooLow);
    }
    let mut h: SlabHeader = SlabHeader::new(acc[2].key, acc[3].key, acc[0].key, 0, a.vault_bump);
    h.origin = ORIGIN_OPEN;
    let fee = LamportTransfer { source: acc[0].key, destination: acc[4].key, lamports: a.fee_lamports };
    Ok(empty_slab(&h, Some(fee)))
}

fn initialize_engine(
    program_id: &Pubkey,
    acc: &[AccountView],
    a: &InitializeEngineArgs,
    now: u64,
) -> (r: Result<Outcome, PercolatorError>)
    requires
        acc@.len() >= 2,
    ensures
        engine_initialized(*program_id, acc@, *a, now, r),
{
    let mut h: SlabHeader = check_new_engine(program_id, &acc[0], &acc[1])?;
    validate_risk_params(&a.risk_params, a.init_oracle_price)?;
    let e: RiskEngine = RiskEngine::new_with_market(a.risk_params.into_engine_params(), now, a.init_oracle_price);
    h.initialized = 1;
    let o: Outcome = outcome(&h, &e, None);
    proof {
        engine_of_image(o.slab_data@.subrange(ENGINE_OFFSET as int, slab_size()), e@);
    }
    Ok(o)
}

/// The instructions of the program. Each takes the accounts and the current slot,
/// or whether the slab is rent exempt, and gives what changes.
pub struct Processor;

impl Processor {
    /// Write the header of a slab.
    pub fn process_create_slab(
        program_id: &Pubkey,
        accounts: &[AccountView],
        args: CreateSlabArgs,
        rent_exempt: bool,
    ) -> (r: Result<Outcome, Failure<PercolatorError>>)
        ensures
            processed(
                accounts@,
                5,
                |x: Result<Outcome, PercolatorError>| slab_created(*program_id, accounts@, args, rent_exempt, x),
                r,
            ),
    {
        if accounts.len() < 5 {
            return Err(Failure::NotEnoughAccountKeys);
        }
        Ok(match create_slab(program_id, accounts, &args, rent_exempt) {
                Ok(x) => x,
                Err(e) => {
                    return Err(Failure::Custom(e));
                },
        })
    }

    /// Put an engine into a slab.
    pub fn process_initialize_engine(
        program_id: &Pubkey,
        accounts: &[AccountView],
        args: InitializeEngineArgs,
        slot: u64,
    ) -> (r: Result<Outcome, Failure<PercolatorError>>)
        ensures
            processed(
                accounts@,
                2,
                |x: Result<Outcome, PercolatorError>| engine_initialized(*program_id, accounts@, args, slot, x),
                r,
            ),
    {
        if accounts.len() < 2 {
            return Err(Failure::NotEnoughAccountKeys);
        }
        Ok(match initialize_engine(program_id, accounts, &args, slot) {
                Ok(x) => x,
                Err(e) => {
                    return Err(Failure::Custom(e));
                },
        })
    }

    /// Deposit for the user who signs.
    pub fn process_deposit(program_id: &Pubkey, accounts: &[AccountView], args: DepositArgs, slot: u64) -> (r: Result<
        Outcome,
        Failure<PercolatorError>,
        >)
        requires
            accounts@.len() > 0 ==> holds_engine(*program_id, accounts@[0]),
        ensures
            processed(
                accounts@,
                7,
                |x: Result<Outcome, PercolatorError>| effected(deposit_effect(*program_id, accounts@, args, slot), x),
                r,
            ),
    {
        if accounts.len() < 7 {
            return Err(Failure::NotEnoughAccountKeys);
        }
        Ok(match deposit(program_id, accounts, &args, slot) {
                Ok(x) => x,
                Err(e) => {
                    return Err(Failure::Custom(e));
                },
        })
    }

    /// Withdraw for the user who signs.
    pub fn process_withdraw(program_id: &Pubkey, accounts: &[AccountView], args: WithdrawArgs, slot: u64) -> (r: Result<
        Outcome,
        Failure<PercolatorError>,
        >)
        requires
            accounts@.len() > 0 ==> holds_engine(*program_id, accounts@[0]),
        ensures
            processed(
                accounts@,
                7,
                |x: Result<Outcome, PercolatorError>| effected(withdraw_effect(*program_id, accounts@, args, slot), x),
                r,
            ),
    {
        if accounts.len() < 7 {
            return Err(Failure::NotEnoughAccountKeys);
        }
        Ok(match withdraw(program_id, accounts, &args, slot) {
                Ok(x) => x,
                Err(e) => {
                    return Err(Failure::Custom(e));
                },
        })
    }

    /// Fund the protocol LP.
    pub fn process_bootstrap_lp(
        program_id: &Pubkey,
        accounts: &[AccountView],
        args: BootstrapLpArgs,
        slot: u64,
    ) -> (r: Result<Outcome, Failure<PercolatorError>>)
        requires
            accounts@.len() > 0 ==> holds_engine(*program_id, accounts@[0]),
        ensures
            processed(
                accounts@,
                7,
                |x: Result<Outcome, PercolatorError>| effected(bootstrap_effect(*program_id, accounts@, args, slot), x),
                r,
            ),
    {
        if accounts.len() < 7 {
            return Err(Failure::NotEnoughAccountKeys);
        }
        Ok(match bootstrap_lp(program_id, accounts, &args, slot) {
                Ok(x) => x,
                Err(e) => {
                    return Err(Failure::Custom(e));
                },
        })
    }

    /// Trade against the protocol LP.
    pub fn process_place_order(
        program_id: &Pubkey,
        accounts: &[AccountView],
        args: PlaceOrderArgs,
        slot: u64,
    ) -> (r: Result<Outcome, Failure<PercolatorError>>)
        requires
            accounts@.len() > 0 ==> holds_engine(*program_id, accounts@[0]),
        ensures
            processed(
                accounts@,
                4,
                |x: Result<Outcome, PercolatorError>| effected(place_order_effect(*program_id, accounts@, args, slot), x),
                r,
            ),
    {
        if accounts.len() < 4 {
            return Err(Failure::NotEnoughAccountKeys);
        }
        Ok(match place_order(program_id, accounts, &args, slot) {
                Ok(x) => x,
                Err(e) => {
                    return Err(Failure::Custom(e));
                },
        })
    }

    /// Liquidate an account for a bounty.
    pub fn process_liquidate(
        program_id: &Pubkey,
        accounts: &[AccountView],
        args: LiquidateArgs,
        slot: u64,
    ) -> (r: Result<Outcome, Failure<PercolatorError>>)
        requires
            accounts@.len() > 0 ==> holds_engine(*program_id, accounts@[0]),
        ensures
            processed(
                accounts@,
                7,
                |x: Result<Outcome, PercolatorError>| effected(liquidate_effect(*program_id, accounts@, args, slot), x),
                r,
            ),
    {
        if accounts.len() < 7 {
            return Err(Failure::NotEnoughAccountKeys);
        }
        Ok(match liquidate(program_id, accounts, &args, slot) {
                Ok(x) => x,
                Err(e) => {
                    return Err(Failure::Custom(e));
                },
        })
    }

    /// Do maintenance work for a bounty.
    pub fn process_crank(program_id: &Pubkey, accounts: &[AccountView], args: CrankArgs, slot: u64) -> (r: Result<
        Outcome,
        Failure<PercolatorError>,
        >)
        requires
            accounts@.len() > 0 ==> holds_engine(*program_id, accounts@[0]),
        ensures
            processed(
                accounts@,
                6,
                |x: Result<Outcome, PercolatorError>| effected(crank_effect(*program_id, accounts@, args, slot), x),
                r,
            ),
    {
        if accounts.len() < 6 {
            return Err(Failure::NotEnoughAccountKeys);
        }
        Ok(match crank(program_id, accounts, &args, slot) {
                Ok(x) => x,
                Err(e) => {
                    return Err(Failure::Custom(e));
                },
        })
    }

    /// List a market for a fee.
    pub fn process_create_market(
        program_id: &Pubkey,
        accounts: &[AccountView],
        args: CreateMarketArgs,
        rent_exempt: bool,
    ) -> (r: Result<Outcome, Failure<PercolatorError>>)
        ensures
            processed(
                accounts@,
                7,
                |x: Result<Outcome, PercolatorError>| market_created(*program_id, accounts@, args, rent_exempt, x),
                r,
            ),
    {
        if accounts.len() < 7 {
            return Err(Failure::NotEnoughAccountKeys);
        }
        Ok(match create_market(program_id, accounts, &args, rent_exempt) {
                Ok(x) => x,
                Err(e) => {
                    return Err(Failure::Custom(e));
                },
        })
    }

    /// Whether an instruction can be carried out on these accounts: where it works on
    /// the engine of a slab, the slab holds one.
    pub fn is_ready(program_id: &Pubkey, accounts: &[AccountView], instruction_data: &[u8]) -> (r: bool)
        ensures
            r == (forall|ix: PercolatorInstruction| #[trigger]
                wire_form(instruction_data@, ix) ==> ready(*program_id, accounts@, ix)),
    {
        let ix: PercolatorInstruction = match PercolatorInstruction::unpack(instruction_data) {
            Ok(ix) => ix,
            Err(_) => {
                return true;
            },
        };
        proof {
            assert(wire_form(instruction_data@, ix));
            assert forall|other: PercolatorInstruction| #[trigger] wire_form(instruction_data@, other) implies other == ix by {
                wire_form_is_unambiguous(instruction_data@, ix, other);
            }
        }
        match ix {
            PercolatorInstruction::CreateSlab(_) => true,
            PercolatorInstruction::InitializeEngine(_) => true,
            PercolatorInstruction::CreateMarket(_) => true,
            _ => accounts.len() == 0 || has_engine(program_id, &accounts[0]),
        }
    }

    /// Decode an instruction and carry it out.
    pub fn process(
        program_id: &Pubkey,
        accounts: &[AccountView],
        instruction_data: &[u8],
        slot: u64,
        rent_exempt: bool,
    ) -> (r: Result<Outcome, Failure<PercolatorError>>)
        requires
            forall|ix: PercolatorInstruction| #[trigger] wire_form(instruction_data@, ix) ==> ready(*program_id, accounts@, ix),
        ensures
            forall|ix: PercolatorInstruction| #[trigger] wire_form(instruction_data@, ix) ==> obeyed(
                *program_id,
                accounts@,
                ix,
                slot,
                rent_exempt,
                r,
            ),
            (forall|ix: PercolatorInstruction| !wire_form(instruction_data@, ix)) ==> r == Err::<
            Outcome,
            Failure<PercolatorError>,
            >(Failure::Custom(PercolatorError::InvalidInstructionData)),
    {
        let ix: PercolatorInstruction = match PercolatorInstruction::unpack(instruction_data) {
            Ok(x) => x,
            Err(e) => {
                return Err(Failure::Custom(e));
            },
        };
        proof {
            assert forall|other: PercolatorInstruction| #[trigger] wire_form(instruction_data@, other) implies other == ix by {
                wire_form_is_unambiguous(instruction_data@, ix, other);
            }
        }
        assert(ready(*program_id, accounts@, ix));
        match ix {
            PercolatorInstruction::CreateSlab(a) => Processor::process_create_slab(program_id, accounts, a, rent_exempt),
            PercolatorInstruction::InitializeEngine(a) => Processor::process_initialize_engine(program_id, accounts, a, slot),
            PercolatorInstruction::Deposit(a) => Processor::process_deposit(program_id, accounts, a, slot),
            PercolatorInstruction::Withdraw(a) => Processor::process_withdraw(program_id, accounts, a, slot),
            PercolatorInstruction::BootstrapLp(a) => Processor::process_bootstrap_lp(program_id, accounts, a, slot),
            PercolatorInstruction::PlaceOrder(a) => Processor::process_place_order(program_id, accounts, a, slot),
            PercolatorInstruction::Liquidate(a) => Processor::process_liquidate(program_id, accounts, a, slot),
            PercolatorInstruction::Crank(a) => Processor::process_crank(program_id, accounts, a, slot),
            PercolatorInstruction::CreateMarket(a) => Processor::process_create_market(program_id, accounts, a, rent_exempt),
        }
    }
}

/// What an instruction needs of its accounts beyond what it checks.
pub open spec fn ready(program: Pubkey, acc: Seq<AccountView>, ix: PercolatorInstruction) -> bool {
    match ix {
        PercolatorInstruction::CreateSlab(_) => true,
        PercolatorInstruction::InitializeEngine(_) => true,
        PercolatorInstruction::CreateMarket(_) => true,
        _ => acc.len() > 0 ==> holds_engine(program, acc[0]),
    }
}

/// What comes of an instruction.
pub open spec fn obeyed(
    program: Pubkey,
    acc: Seq<AccountView>,
    ix: PercolatorInstruction,
    now: u64,
    rent_exempt: bool,
    r: Result<Outcome, Failure<PercolatorError>>,
) -> bool {
    match ix {
        PercolatorInstruction::CreateSlab(a) => processed(
            acc,
            5,
            |x: Result<Outcome, PercolatorError>| slab_created(program, acc, a, rent_exempt, x),
            r,
        ),
        PercolatorInstruction::InitializeEngine(a) => processed(
            acc,
            2,
            |x: Result<Outcome, PercolatorError>| engine_initialized(program, acc, a, now, x),
            r,
        ),
        PercolatorInstruction::Deposit(a) => processed(
            acc,
            7,
            |x: Result<Outcome, PercolatorError>| effected(deposit_effect(program, acc, a, now), x),
            r,
        ),
        PercolatorInstruction::Withdraw(a) => processed(
            acc,
            7,
            |x: Result<Outcome, PercolatorError>| effected(withdraw_effect(program, acc, a, now), x),
            r,
        ),
        PercolatorInstruction::BootstrapLp(a) => processed(
            acc,
            7,
            |x: Result<Outcome, PercolatorError>| effected(bootstrap_effect(program, acc, a, now), x),
            r,
        ),
        PercolatorInstruction::PlaceOrder(a) => processed(
            acc,
            4,
            |x: Result<Outcome, PercolatorError>| effected(place_order_effect(program, acc, a, now), x),
            r,
        ),
        PercolatorInstruction::Liquidate(a) => processed(
            acc,
            7,
            |x: Result<Outcome, PercolatorError>| effected(liquidate_effect(program, acc, a, now), x),
            r,
        ),
        PercolatorInstruction::Crank(a) => processed(
            acc,
            6,
            |x: Result<Outcome, PercolatorError>| effected(crank_effect(program, acc, a, now), x),
            r,
        ),
        PercolatorInstruction::CreateMarket(a) => processed(
            acc,
            7,
            |x: Result<Outcome, PercolatorError>| market_created(program, acc, a, rent_exempt, x),
            r,
        ),
    }
}

} // verus!
